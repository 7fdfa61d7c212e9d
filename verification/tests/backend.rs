use mmcc::pcode::recompute_layout;
use mmcc::pinst::{PAMode, PInst, POffset};
use mmcc::regalloc::regalloc_vcode;
use mmcc::solver::{Alloc, AllocResult, Edit, PassError, ProgPoint};
use mmcc::types::{rsp, Binop, PReg, PRegSet, Size, CC};
use mmcc::vcode::{AMode, Inst, Offset, OpKind, ProcAbi, VCode};

fn abi_default() -> ProcAbi {
    ProcAbi { args: vec![], rets: Some(vec![]), clobbers: vec![] }
}

fn vcode_of(insts: Vec<Inst>, blocks: Vec<(usize, usize)>) -> VCode {
    let n = insts.len();
    VCode {
        insts,
        blocks,
        spills: vec![0, 0],
        operands: vec![vec![]; n],
        clobbers: vec![PRegSet::empty(); n],
        abi: abi_default(),
    }
}

fn out_of(allocs: Vec<Alloc>, offsets: Vec<usize>) -> AllocResult {
    AllocResult { allocs, inst_alloc_offsets: offsets, num_spillslots: 0, edits: vec![] }
}

fn run(v: VCode, o: AllocResult) -> (ProcAbi, mmcc::pcode::PCode) {
    regalloc_vcode(&v, o).expect("pass should succeed")
}

/// A two-block procedure whose unconditional jump targets the very next
/// block: the jump is elided and the exit block's address is the byte size
/// of the entry block.
#[test]
fn two_block_jump_elided() {
    let mut insts = vec![];
    for _ in 0..5 {
        insts.push(Inst::Ud2); // 2 bytes each: 10 bytes of non-jump code
    }
    insts.push(Inst::JmpKnown { dst: 1, params: vec![] });
    insts.push(Inst::Epilogue { params: vec![] });
    let v = vcode_of(insts, vec![(0, 6), (6, 7)]);
    let o = out_of(vec![], vec![0; 7]);
    let (_, pc) = run(v, o);
    // five traps, no jump, then the bare-return epilogue
    assert_eq!(pc.insts.len(), 6);
    assert_eq!(pc.insts[5], PInst::Ret);
    assert!(pc.insts.iter().all(|i| i.is_jump().is_none()));
    assert_eq!(pc.block_addr, vec![0, 10]);
    assert_eq!(pc.len, 11);
}

/// A conditional branch whose not-taken edge is the physically-next block
/// emits exactly one conditional jump, with the original condition, and a
/// fallthrough.
#[test]
fn cond_branch_not_taken_next() {
    let insts = vec![
        Inst::JmpCond { cc: CC::Z, taken: 2, not_taken: 1 },
        Inst::JmpKnown { dst: 2, params: vec![] },
        Inst::Epilogue { params: vec![] },
    ];
    let v = vcode_of(insts, vec![(0, 1), (1, 2), (2, 3)]);
    let o = out_of(vec![], vec![0; 3]);
    let (_, pc) = run(v, o);
    assert_eq!(
        pc.insts,
        vec![
            PInst::JmpCond { cc: CC::Z, dst: 2, short: true },
            PInst::Fallthrough { dst: 1 },
            PInst::Ret,
        ]
    );
    assert_eq!(pc.block_addr, vec![0, 2, 2]);
    assert_eq!(pc.len, 3);
}

/// When the taken edge is what falls through, the condition is inverted
/// and the roles swap.
#[test]
fn cond_branch_taken_next_inverts() {
    let insts = vec![
        Inst::JmpCond { cc: CC::Z, taken: 1, not_taken: 2 },
        Inst::JmpKnown { dst: 2, params: vec![] },
        Inst::Epilogue { params: vec![] },
    ];
    let v = vcode_of(insts, vec![(0, 1), (1, 2), (2, 3)]);
    let o = out_of(vec![], vec![0; 3]);
    let (_, pc) = run(v, o);
    assert_eq!(pc.insts[0], PInst::JmpCond { cc: CC::NZ, dst: 2, short: true });
    assert_eq!(pc.insts[1], PInst::Fallthrough { dst: 1 });
}

/// When neither edge falls through, both a conditional and an
/// unconditional jump are emitted.
#[test]
fn cond_branch_neither_next() {
    let insts = vec![
        Inst::JmpCond { cc: CC::B, taken: 2, not_taken: 3 },
        Inst::Ud2,
        Inst::JmpKnown { dst: 3, params: vec![] },
        Inst::Epilogue { params: vec![] },
    ];
    let v = vcode_of(insts, vec![(0, 1), (1, 2), (2, 3), (3, 4)]);
    let o = out_of(vec![], vec![0; 4]);
    let (_, pc) = run(v, o);
    assert!(matches!(pc.insts[0], PInst::JmpCond { cc: CC::B, dst: 2, .. }));
    assert!(matches!(pc.insts[1], PInst::JmpKnown { dst: 3, .. }));
}

/// A backward jump whose displacement fits a signed byte is shortened at
/// push time: here the target block sits at byte 195 and the jump's
/// provisional end is byte 202.
#[test]
fn backward_jump_short() {
    let mut insts = vec![];
    for _ in 0..97 {
        insts.push(Inst::Ud2); // 194 bytes
    }
    insts.push(Inst::Epilogue { params: vec![] }); // Ret: byte 195 ends block 0
    insts.push(Inst::Ud2); // block 1: bytes 195..197
    insts.push(Inst::JmpKnown { dst: 1, params: vec![] }); // backward jump
    let v = vcode_of(insts, vec![(0, 98), (98, 100)]);
    let o = out_of(vec![], vec![0; 100]);
    let (_, pc) = run(v, o);
    assert_eq!(pc.block_addr, vec![0, 195]);
    assert_eq!(pc.insts[99], PInst::JmpKnown { dst: 1, short: true });
    // short form: 195 (block 0) + 2 (trap) + 2 (short jump)
    assert_eq!(pc.len, 199);
}

/// A forward jump whose eventual displacement is 300 bytes stays long,
/// decided during the finish phase.
#[test]
fn forward_jump_long() {
    let mut insts = vec![Inst::JmpKnown { dst: 2, params: vec![] }];
    for _ in 0..150 {
        insts.push(Inst::Ud2); // 300 bytes between jump end and target
    }
    insts.push(Inst::Epilogue { params: vec![] });
    let v = vcode_of(insts, vec![(0, 1), (1, 151), (151, 152)]);
    let o = out_of(vec![], vec![0; 152]);
    let (_, pc) = run(v, o);
    assert_eq!(pc.insts[0], PInst::JmpKnown { dst: 2, short: false });
    assert_eq!(pc.block_addr, vec![0, 5, 305]);
    assert_eq!(pc.len, 306);
}

/// A forward jump whose displacement fits is shortened in the finish
/// phase, and the recomputation shifts every later address.
#[test]
fn forward_jump_shortened() {
    let mut insts = vec![Inst::JmpKnown { dst: 2, params: vec![] }];
    for _ in 0..20 {
        insts.push(Inst::Ud2); // 40 bytes between jump end and target
    }
    insts.push(Inst::Epilogue { params: vec![] });
    let v = vcode_of(insts, vec![(0, 1), (1, 21), (21, 22)]);
    let o = out_of(vec![], vec![0; 22]);
    let (_, pc) = run(v, o);
    assert_eq!(pc.insts[0], PInst::JmpKnown { dst: 2, short: true });
    assert_eq!(pc.block_addr, vec![0, 2, 42]);
    assert_eq!(pc.len, 43);
}

/// Zero clobbered callee-saved registers and zero stack size: the
/// prologue emits nothing and the epilogue is a bare return.
#[test]
fn empty_frame_bare_return() {
    let v = vcode_of(vec![Inst::Epilogue { params: vec![] }], vec![(0, 1)]);
    let o = out_of(vec![], vec![0]);
    let (_, pc) = run(v, o);
    assert_eq!(pc.insts, vec![PInst::Ret]);
    assert_eq!(pc.stack_size, 0);
    assert!(pc.saved_regs.is_empty());
    assert_eq!(pc.len, 1);
}

/// Clobbered callee-saved registers are pushed in the fixed order and
/// popped in reverse, around the stack-pointer adjustments.
#[test]
fn prologue_epilogue_saved_regs() {
    let clob = PRegSet::empty().insert(PReg(3)).insert(PReg(12));
    let mut v = vcode_of(vec![Inst::Ud2, Inst::Epilogue { params: vec![] }], vec![(0, 2)]);
    v.clobbers[0] = clob;
    let o = out_of(vec![], vec![0, 0]);
    let (abi, pc) = run(v, o);
    assert_eq!(pc.saved_regs, vec![PReg(3), PReg(12)]);
    assert_eq!(pc.stack_size, 16);
    let imm16 = mmcc::pinst::PRegMemImm::Imm(16);
    assert_eq!(
        pc.insts,
        vec![
            PInst::Push64 { src: mmcc::pinst::PRegMemImm::Reg(PReg(3)) },
            PInst::Push64 { src: mmcc::pinst::PRegMemImm::Reg(PReg(12)) },
            PInst::Binop { op: Binop::Sub, sz: Size::S64, dst: rsp(), src: imm16 },
            PInst::Ud2,
            PInst::Binop { op: Binop::Add, sz: Size::S64, dst: rsp(), src: imm16 },
            PInst::Pop64 { dst: PReg(12) },
            PInst::Pop64 { dst: PReg(3) },
            PInst::Ret,
        ]
    );
    // callee-saved registers are not reported to callers
    assert!(abi.clobbers.is_empty());
}

/// A solver edit whose source and destination resolve to the identical
/// register emits nothing.
#[test]
fn edit_move_elided() {
    let mut o = out_of(vec![], vec![0]);
    o.edits = vec![(
        ProgPoint::before(0),
        Edit { from: Alloc::Reg(PReg(1)), to: Alloc::Reg(PReg(1)) },
    )];
    let v = vcode_of(vec![Inst::Ud2], vec![(0, 1)]);
    let (_, pc) = run(v, o);
    assert_eq!(pc.insts, vec![PInst::Ud2]);
    assert_eq!(pc.len, 2);
}

/// An edit between two different registers becomes one register move.
#[test]
fn edit_move_emitted() {
    let mut o = out_of(vec![], vec![0]);
    o.edits = vec![(
        ProgPoint::before(0),
        Edit { from: Alloc::Reg(PReg(5)), to: Alloc::Reg(PReg(6)) },
    )];
    let v = vcode_of(vec![Inst::Ud2], vec![(0, 1)]);
    let (_, pc) = run(v, o);
    assert_eq!(
        pc.insts,
        vec![PInst::MovRR { sz: Size::S64, dst: PReg(6), src: PReg(5) }, PInst::Ud2]
    );
}

/// Register-to-stack and stack-to-register edits become spill stores and
/// loads at the solver spill area's offsets.
#[test]
fn edit_spill_store_load() {
    let mut o = out_of(vec![], vec![0]);
    o.num_spillslots = 1;
    o.edits = vec![
        (ProgPoint::before(0), Edit { from: Alloc::Reg(PReg(0)), to: Alloc::Stack(0) }),
        (ProgPoint::after(0), Edit { from: Alloc::Stack(0), to: Alloc::Reg(PReg(1)) }),
    ];
    let v = vcode_of(vec![Inst::Ud2], vec![(0, 1)]);
    let (abi, pc) = run(v, o);
    let slot = PAMode { off: POffset::Real(0), base: Some(rsp()), si: None };
    assert_eq!(pc.stack_size, 8);
    assert_eq!(
        pc.insts,
        vec![
            PInst::Binop {
                op: Binop::Sub,
                sz: Size::S64,
                dst: rsp(),
                src: mmcc::pinst::PRegMemImm::Imm(8)
            },
            PInst::Store { spill: true, sz: Size::S64, src: PReg(0), dst: slot },
            PInst::Ud2,
            PInst::Load64 { spill: true, dst: PReg(1), src: slot },
        ]
    );
    // the written register is caller-saved and reported to callers
    assert_eq!(abi.clobbers, vec![PReg(1)]);
}

/// A spill-relative operand resolves to the frame offset assigned by the
/// reverse-declaration-order layout.
#[test]
fn spill_region_layout() {
    let mut v = vcode_of(
        vec![
            Inst::Load64 {
                src: AMode { off: Offset::Spill(2, 0), base: None, si: None },
            },
            Inst::Epilogue { params: vec![] },
        ],
        vec![(0, 2)],
    );
    v.spills = vec![16, 24, 8, 16];
    v.operands[0] = vec![OpKind::Def];
    let mut o = out_of(vec![Alloc::Reg(PReg(0))], vec![0, 1]);
    o.num_spillslots = 2;
    let (abi, pc) = run(v, o);
    // base = outgoing (24) + 2 solver slots (16) = 40; the last declared
    // region sits at 40, the one before it at 40 + 16 = 56
    assert_eq!(
        pc.insts[1],
        PInst::Load64 {
            spill: false,
            src: PAMode { off: POffset::Real(56), base: Some(rsp()), si: None },
            dst: PReg(0),
        }
    );
    // stack size: 40 + declared regions past the first two (8 + 16)
    assert_eq!(pc.stack_size, 64);
    assert_eq!(abi.clobbers, vec![PReg(0)]);
}

/// The total length always equals the sum of the instruction lengths, and
/// each block's address the sum of the lengths before it.
#[test]
fn length_and_addresses_are_sums() {
    let mut insts = vec![Inst::JmpKnown { dst: 2, params: vec![] }];
    for _ in 0..20 {
        insts.push(Inst::Ud2);
    }
    insts.push(Inst::Epilogue { params: vec![] });
    let v = vcode_of(insts, vec![(0, 1), (1, 21), (21, 22)]);
    let o = out_of(vec![], vec![0; 22]);
    let (_, pc) = run(v, o);
    let total: usize = pc.insts.iter().map(|i| i.len()).sum();
    assert_eq!(pc.len, total);
    for (b, &(start, _)) in pc.blocks.iter().enumerate() {
        let before: usize = pc.insts[..start].iter().map(|i| i.len()).sum();
        assert_eq!(pc.block_addr[b], before);
    }
}

/// Re-running the finish-phase address recomputation on a finished
/// program changes nothing.
#[test]
fn recompute_is_idempotent() {
    let mut insts = vec![Inst::JmpKnown { dst: 2, params: vec![] }];
    for _ in 0..20 {
        insts.push(Inst::Ud2);
    }
    insts.push(Inst::Epilogue { params: vec![] });
    let v = vcode_of(insts, vec![(0, 1), (1, 21), (21, 22)]);
    let o = out_of(vec![], vec![0; 22]);
    let (_, pc) = run(v, o);
    let mut again = pc.clone();
    recompute_layout(&mut again);
    assert_eq!(again.block_addr, pc.block_addr);
    assert_eq!(again.len, pc.len);
}

/// The block table gives back each block's instructions.
#[test]
fn block_insts_slices() {
    let insts = vec![Inst::Ud2, Inst::JmpKnown { dst: 1, params: vec![] }, Inst::Epilogue {
        params: vec![],
    }];
    let v = vcode_of(insts, vec![(0, 2), (2, 3)]);
    let o = out_of(vec![], vec![0; 3]);
    let (_, pc) = run(v, o);
    let b0 = pc.block_insts(0);
    let b1 = pc.block_insts(1);
    assert_eq!(b0, vec![PInst::Ud2]);
    assert_eq!(b1, vec![PInst::Ret]);
}

/// A skewed cumulative count is a fatal misalignment naming the
/// instruction where it was discovered.
#[test]
fn error_misalignment() {
    let v = vcode_of(vec![Inst::Ud2], vec![(0, 1)]);
    let o = out_of(vec![], vec![1]);
    assert_eq!(regalloc_vcode(&v, o).unwrap_err(), PassError::Misalignment { inst: 0 });
}

/// A register-class operand resolved to a spill slot is a solver contract
/// violation.
#[test]
fn error_expected_reg() {
    let v = vcode_of(vec![Inst::Imm { sz: Size::S64, src: 7 }], vec![(0, 1)]);
    let mut o = out_of(vec![Alloc::Stack(0)], vec![0]);
    o.num_spillslots = 1;
    assert_eq!(regalloc_vcode(&v, o).unwrap_err(), PassError::ExpectedReg);
}

/// Needing one more allocation than the solver produced is fatal.
#[test]
fn error_allocs_exhausted() {
    let v = vcode_of(vec![Inst::Imm { sz: Size::S64, src: 7 }], vec![(0, 1)]);
    let o = out_of(vec![], vec![0]);
    assert_eq!(regalloc_vcode(&v, o).unwrap_err(), PassError::AllocsExhausted);
}

/// A stack-to-stack edit is invalid.
#[test]
fn error_invalid_edit() {
    let v = vcode_of(vec![Inst::Ud2], vec![(0, 1)]);
    let mut o = out_of(vec![], vec![0]);
    o.num_spillslots = 1;
    o.edits = vec![(
        ProgPoint::before(0),
        Edit { from: Alloc::Stack(0), to: Alloc::Stack(0) },
    )];
    assert_eq!(regalloc_vcode(&v, o).unwrap_err(), PassError::InvalidEdit { inst: 0 });
}

/// A fallthrough whose declared target is not the next block is a bug in
/// an earlier pass and aborts.
#[test]
fn error_bad_structure() {
    let insts = vec![Inst::Fallthrough { dst: 1 }, Inst::Ud2, Inst::Epilogue { params: vec![] }];
    let v = vcode_of(insts, vec![(0, 2), (2, 3)]);
    let o = out_of(vec![], vec![0; 3]);
    assert_eq!(regalloc_vcode(&v, o).unwrap_err(), PassError::BadStructure { inst: 0 });
}

/// Operand resolution consumes the solver's allocations in exposure
/// order: source register, second operand, then destination.
#[test]
fn binop_operand_order() {
    let insts = vec![
        Inst::Binop { op: Binop::Add, sz: Size::S32, src2: mmcc::vcode::RegMemImm::Imm(9) },
        Inst::Epilogue { params: vec![] },
    ];
    let mut v = vcode_of(insts, vec![(0, 2)]);
    v.operands[0] = vec![OpKind::Use, OpKind::Def];
    let o = out_of(vec![Alloc::Reg(PReg(1)), Alloc::Reg(PReg(2))], vec![0, 2]);
    let (_, pc) = run(v, o);
    assert_eq!(
        pc.insts[0],
        PInst::Binop {
            op: Binop::Add,
            sz: Size::S32,
            dst: PReg(2),
            src: mmcc::pinst::PRegMemImm::Imm(9),
        }
    );
}

/// The finish phase is a single relaxation pass, not a fixpoint: a
/// forward jump whose displacement would fit only because another jump
/// shrank stays long. Here the first jump's provisional gap is 129 bytes;
/// after the second jump shortens, its real displacement is 126, but the
/// decision was already made.
#[test]
fn forward_jump_single_pass_looseness() {
    let mut insts = vec![
        Inst::JmpKnown { dst: 3, params: vec![] },
        Inst::JmpKnown { dst: 3, params: vec![] },
    ];
    for _ in 0..62 {
        insts.push(Inst::Ud2); // 124 bytes
    }
    insts.push(Inst::Epilogue { params: vec![] });
    let v = vcode_of(insts, vec![(0, 1), (1, 2), (2, 64), (64, 65)]);
    let o = out_of(vec![], vec![0; 65]);
    let (_, pc) = run(v, o);
    // provisional addresses: jumps at 0 and 5 (both long), target at 134;
    // gaps 129 and 124 — only the second fits
    assert_eq!(pc.insts[0], PInst::JmpKnown { dst: 3, short: false });
    assert_eq!(pc.insts[1], PInst::JmpKnown { dst: 3, short: true });
    // final layout: 5 + 2 + 124 = 131; the long jump's real displacement
    // (131 - 5 = 126) would now fit, and is left long by design
    assert_eq!(pc.block_addr, vec![0, 5, 7, 131]);
    assert_eq!(pc.len, 132);
}

/// The incoming-argument area (region 0) is pinned just above the return
/// address: its offset is the frame size plus eight, with the frame
/// covering the outgoing area, the solver's slots, the other declared
/// regions, and the saved registers.
#[test]
fn incoming_area_above_return_address() {
    let mut v = vcode_of(
        vec![
            Inst::Load64 {
                src: AMode { off: Offset::Spill(0, 0), base: None, si: None },
            },
            Inst::Ud2,
            Inst::Epilogue { params: vec![] },
        ],
        vec![(0, 3)],
    );
    v.spills = vec![16, 24, 8, 16];
    v.operands[0] = vec![OpKind::Def];
    v.clobbers[1] = PRegSet::empty().insert(PReg(3));
    let mut o = out_of(vec![Alloc::Reg(PReg(0))], vec![0, 1, 1]);
    o.num_spillslots = 2;
    let (_, pc) = run(v, o);
    // frame: outgoing 24 + slots 16 + regions 8 + 16 + saved 8 = 72
    assert_eq!(pc.stack_size, 72);
    assert_eq!(pc.saved_regs, vec![PReg(3)]);
    // region 0 resolves to 72 + 8 = 80: just above the return address
    assert_eq!(
        pc.insts[2],
        PInst::Load64 {
            spill: false,
            src: PAMode { off: POffset::Real(80), base: Some(rsp()), si: None },
            dst: PReg(0),
        }
    );
}
