//! The virtual instruction program this pass consumes: block-structured
//! instructions over virtual registers and abstract spill-relative memory
//! operands, together with the procedure's ABI description.

use vstd::prelude::*;
use crate::types::{Binop, CmpKind, CC, ExtMode, PReg, PRegSet, ShiftKind, Size, Unop, NUM_REGS};

verus! {

/// A virtual register: an abstract identifier assigned by instruction
/// selection. This pass never interprets it; the solver's flat allocation
/// list replaces each occurrence in enumeration order.
#[derive(Clone, Copy, PartialEq, Eq, Structural, Debug)]
pub struct VReg(pub u32);

/// A scaled index register in a virtual addressing mode.
#[derive(Clone, Copy, PartialEq, Eq, Structural, Debug)]
pub struct ShiftIndex {
    pub index: VReg,
    pub shift: u32,
}

/// An abstract address displacement. `Spill(slot, extra)` names a byte
/// offset into one of the procedure's declared spill regions; the stack
/// frame layout turns it into a concrete stack-pointer offset.
#[derive(Clone, Copy, PartialEq, Eq, Structural, Debug)]
pub enum Offset {
    /// A concrete byte offset.
    Real(usize),
    /// `extra` bytes past the start of declared spill region `slot`.
    Spill(usize, usize),
    /// A symbolic global address (symbol id, byte offset).
    Global(u32, usize),
    /// A symbolic constant-pool address (constant id, byte offset).
    ConstAddr(u32, usize),
}

/// A virtual addressing mode. A spill-relative displacement uses no base
/// register; otherwise an optional virtual base register is resolved through
/// the solver's allocation list.
#[derive(Clone, Copy, PartialEq, Eq, Structural, Debug)]
pub struct AMode {
    pub off: Offset,
    pub base: Option<VReg>,
    pub si: Option<ShiftIndex>,
}

/// A register-or-memory virtual operand. Which of the two it is was fixed at
/// instruction selection; the solver only picks the registers.
#[derive(Clone, Copy, PartialEq, Eq, Structural, Debug)]
pub enum RegMem {
    Reg(VReg),
    Mem(AMode),
}

/// A register, memory or immediate virtual operand.
#[derive(Clone, Copy, PartialEq, Eq, Structural, Debug)]
pub enum RegMemImm {
    Reg(VReg),
    Mem(AMode),
    Imm(u64),
}

/// A virtual instruction. Operands that the solver resolves are listed in
/// the order the instruction exposed them to the solver; lowering consumes
/// the solver's allocations in exactly this order.
#[derive(Clone, PartialEq, Eq, Debug)]
pub enum Inst {
    /// Control continues in block `dst`, which must be the next block.
    Fallthrough { dst: usize },
    /// Records where block parameter `var` lives; emits no code.
    BlockParam { var: u32, val: RegMem },
    /// Two-operand arithmetic: consumes source register, second operand,
    /// destination register.
    Binop { op: Binop, sz: Size, src2: RegMemImm },
    /// One-operand arithmetic: consumes source and destination registers.
    Unop { op: Unop, sz: Size },
    /// Widening multiply: consumes one register, the second operand, and the
    /// two fixed result registers.
    Mul { sz: Size, src2: RegMem },
    /// Load an immediate into a fresh register.
    Imm { sz: Size, src: u64 },
    /// Virtual register move; the solver coalesces it, so no allocation is
    /// consumed and no instruction is emitted.
    MovRR { sz: Size },
    /// Move from a fixed physical register; consumes the destination's
    /// allocation and emits nothing, the constraint having done the work.
    MovPR { sz: Size },
    /// Zero-extending move.
    MovzxRmR { ext_mode: ExtMode, src: RegMem },
    /// 64-bit load.
    Load64 { src: AMode },
    /// Load effective address.
    Lea { sz: Size, addr: AMode },
    /// Sign-extending move.
    MovsxRmR { ext_mode: ExtMode, src: RegMem },
    /// Store a register to memory.
    Store { sz: Size, dst: AMode },
    /// Shift by a constant: consumes source and destination registers.
    ShiftImm { sz: Size, kind: ShiftKind, num_bits: u8 },
    /// Shift by the count register: consumes source, count and destination.
    ShiftRR { sz: Size, kind: ShiftKind },
    /// Compare or test.
    Cmp { sz: Size, op: CmpKind, src2: RegMemImm },
    /// Set a register from a condition.
    SetCC { cc: CC },
    /// Conditional move: consumes first source, second operand, destination.
    CMov { sz: Size, src2: RegMem, cc: CC },
    /// Call a known procedure; the ABI-constrained argument operands are
    /// consumed without appearing in the emitted instruction.
    CallKnown { f: u32, operands: Vec<VReg> },
    /// System call, with ABI-constrained operands as for a call.
    SysCall { operands: Vec<VReg> },
    /// Procedure return: consumes the constrained return-value operands and
    /// emits the epilogue.
    Epilogue { params: Vec<VReg> },
    /// Unconditional jump to `dst`, passing block parameters.
    JmpKnown { dst: usize, params: Vec<VReg> },
    /// Conditional branch.
    JmpCond { cc: CC, taken: usize, not_taken: usize },
    /// Trap unless `cc` holds; `dst` must be the next block.
    Assert { cc: CC, dst: usize },
    /// Undefined-instruction trap.
    Ud2,
}

/// How many allocations resolving `a` consumes: one for a present base
/// register and one for a present index register. A spill-relative
/// displacement is resolved from the frame layout and consumes nothing.
pub open spec fn amode_consumes(a: AMode) -> int {
    (if a.base is Some { 1int } else { 0 }) + (if a.si is Some { 1int } else { 0 })
}

/// How many allocations resolving a register-or-memory operand consumes.
pub open spec fn rm_consumes(rm: RegMem) -> int {
    match rm {
        RegMem::Reg(_) => 1,
        RegMem::Mem(a) => amode_consumes(a),
    }
}

/// How many allocations resolving a register/memory/immediate operand
/// consumes.
pub open spec fn rmi_consumes(rmi: RegMemImm) -> int {
    match rmi {
        RegMemImm::Reg(_) => 1,
        RegMemImm::Mem(a) => amode_consumes(a),
        RegMemImm::Imm(_) => 0,
    }
}

/// How many allocations lowering one virtual instruction consumes. The
/// solver's per-instruction cumulative counts must agree with the running
/// sum of this function, or lowering aborts.
pub open spec fn inst_consumes(i: Inst) -> int {
    match i {
        Inst::Fallthrough { .. } => 0,
        Inst::BlockParam { val, .. } => rm_consumes(val),
        Inst::Binop { src2, .. } => 2 + rmi_consumes(src2),
        Inst::Unop { .. } => 2,
        Inst::Mul { src2, .. } => 3 + rm_consumes(src2),
        Inst::Imm { .. } => 1,
        Inst::MovRR { .. } => 0,
        Inst::MovPR { .. } => 1,
        Inst::MovzxRmR { src, .. } => 1 + rm_consumes(src),
        Inst::Load64 { src } => 1 + amode_consumes(src),
        Inst::Lea { addr, .. } => 1 + amode_consumes(addr),
        Inst::MovsxRmR { src, .. } => 1 + rm_consumes(src),
        Inst::Store { dst, .. } => 1 + amode_consumes(dst),
        Inst::ShiftImm { .. } => 2,
        Inst::ShiftRR { .. } => 3,
        Inst::Cmp { src2, .. } => 1 + rmi_consumes(src2),
        Inst::SetCC { .. } => 1,
        Inst::CMov { src2, .. } => 2 + rm_consumes(src2),
        Inst::CallKnown { operands, .. } => operands.len() as int,
        Inst::SysCall { operands, .. } => operands.len() as int,
        Inst::Epilogue { params } => params.len() as int,
        Inst::JmpKnown { params, .. } => params.len() as int,
        Inst::JmpCond { .. } => 0,
        Inst::Assert { .. } => 0,
        Inst::Ud2 => 0,
    }
}

/// How many allocations lowering the first `i` instructions consumes: the
/// running total the solver's cumulative counts must match.
pub open spec fn consumed_before(insts: Seq<Inst>, i: int) -> int
    decreases i,
{
    if i <= 0 {
        0
    } else {
        consumed_before(insts, i - 1) + inst_consumes(insts[i - 1])
    }
}

/// The def/use/mod tag of one operand, in the order the instruction exposed
/// its operands to the solver. Clobber analysis treats any non-`Use`
/// operand's register as overwritten.
#[derive(Clone, Copy, PartialEq, Eq, Structural, Debug)]
pub enum OpKind {
    Def,
    Use,
    Mod,
}

/// Where one argument or return value of a procedure lives.
#[derive(Clone, Copy, PartialEq, Eq, Structural, Debug)]
pub enum ArgAbi {
    /// In a physical register.
    Reg(PReg, Size),
    /// In memory at a byte offset into the incoming-argument area, with a
    /// byte size.
    Mem { off: u32, sz: u32 },
}

/// A procedure's ABI: argument and return-value locations, and the
/// caller-saved registers the finished procedure clobbers.
#[derive(Clone, PartialEq, Eq, Debug)]
pub struct ProcAbi {
    pub args: Vec<ArgAbi>,
    /// `None` means the procedure does not return.
    pub rets: Option<Vec<ArgAbi>>,
    /// Filled in by this pass: every caller-saved register the procedure
    /// overwrites anywhere.
    pub clobbers: Vec<PReg>,
}

/// A virtual instruction program for one procedure.
#[derive(Clone, Debug)]
pub struct VCode {
    /// The instructions, in program order.
    pub insts: Vec<Inst>,
    /// Half-open instruction ranges, one per basic block, in layout order.
    pub blocks: Vec<(usize, usize)>,
    /// Byte sizes of the declared spill regions. Region 0 is the
    /// incoming-argument area, region 1 the outgoing-argument area.
    pub spills: Vec<usize>,
    /// Per instruction, the def/use/mod tags of its solver-visible operands.
    pub operands: Vec<Vec<OpKind>>,
    /// Per instruction, its intrinsic clobber set.
    pub clobbers: Vec<PRegSet>,
    /// The procedure's ABI.
    pub abi: ProcAbi,
}

/// Caps forced by address arithmetic: they keep every computed byte offset,
/// code address and stack-frame offset comfortably inside `usize` on any
/// machine this backend targets.
pub open spec fn vcode_bounds(v: VCode) -> bool {
    &&& v.insts@.len() <= 0x40_0000
    &&& v.spills@.len() <= 0x100
    &&& forall|k: int| 0 <= k < v.spills@.len() ==> #[trigger] v.spills@[k] <= 0xFFFF
}

/// Whether an addressing mode's fields are in range: a spill-relative
/// displacement names a declared region, stays inside the offset cap, and
/// carries no base register (the stack pointer is its base).
pub open spec fn wf_amode(a: AMode, nspills: int) -> bool {
    a.off matches Offset::Spill(slot, extra)
        ==> 2 <= slot < nspills && extra <= 0xFFFF && a.base is None
}

/// Whether one instruction's block references and addressing modes are in
/// range for a program with `nblocks` blocks and `nspills` spill regions.
pub open spec fn wf_inst(i: Inst, nblocks: int, nspills: int) -> bool {
    match i {
        Inst::Fallthrough { dst } => dst < nblocks,
        Inst::BlockParam { val, .. } => wf_rm(val, nspills),
        Inst::Binop { src2, .. } => wf_rmi(src2, nspills),
        Inst::Mul { src2, .. } => wf_rm(src2, nspills),
        Inst::MovzxRmR { src, .. } => wf_rm(src, nspills),
        Inst::Load64 { src } => wf_amode(src, nspills),
        Inst::Lea { addr, .. } => wf_amode(addr, nspills),
        Inst::MovsxRmR { src, .. } => wf_rm(src, nspills),
        Inst::Store { dst, .. } => wf_amode(dst, nspills),
        Inst::Cmp { src2, .. } => wf_rmi(src2, nspills),
        Inst::CMov { src2, .. } => wf_rm(src2, nspills),
        Inst::JmpKnown { dst, .. } => dst < nblocks,
        Inst::JmpCond { taken, not_taken, .. } => taken < nblocks && not_taken < nblocks,
        Inst::Assert { dst, .. } => dst < nblocks,
        _ => true,
    }
}

/// Range conditions for a register-or-memory operand.
pub open spec fn wf_rm(rm: RegMem, nspills: int) -> bool {
    rm matches RegMem::Mem(a) ==> wf_amode(a, nspills)
}

/// Range conditions for a register/memory/immediate operand.
pub open spec fn wf_rmi(rmi: RegMemImm, nspills: int) -> bool {
    rmi matches RegMemImm::Mem(a) ==> wf_amode(a, nspills)
}

/// Well-formedness of a virtual program, as instruction selection guarantees
/// it: at least one block; blocks are non-empty, contiguous and cover the
/// instruction list; the incoming- and outgoing-argument spill regions
/// exist; the operand-tag and clobber tables parallel the instruction list;
/// every block reference and spill reference is in range; and the size caps
/// of `vcode_bounds` hold.
pub open spec fn wf_vcode(v: VCode) -> bool {
    &&& v.blocks@.len() >= 1
    &&& v.blocks@[0].0 == 0
    &&& forall|k: int|
        0 <= k < v.blocks@.len() ==> (#[trigger] v.blocks@[k]).0 < v.blocks@[k].1
    &&& forall|k: int|
        0 < k < v.blocks@.len() ==> (#[trigger] v.blocks@[k]).0 == v.blocks@[k - 1].1
    &&& v.blocks@[v.blocks@.len() - 1].1 == v.insts@.len()
    &&& v.spills@.len() >= 2
    &&& v.operands@.len() == v.insts@.len()
    &&& v.clobbers@.len() == v.insts@.len()
    &&& forall|k: int|
        0 <= k < v.insts@.len()
            ==> wf_inst(#[trigger] v.insts@[k], v.blocks@.len() as int, v.spills@.len() as int)
    &&& match v.abi.rets {
        Some(rs) => forall|k: int|
            0 <= k < rs@.len()
                ==> ((#[trigger] rs@[k]) matches ArgAbi::Reg(r, _) ==> r.0 < NUM_REGS),
        None => true,
    }
    &&& vcode_bounds(v)
}

} // verus!
