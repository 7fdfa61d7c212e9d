//! The code builder: appends physical instructions while accounting
//! provisional (long-form) lengths, shortens backward jumps on the fly,
//! defers forward jumps to a fix-up list, and finally resolves that list
//! and recomputes the layout from scratch.

use vstd::prelude::*;
use crate::cursor::ApplyRegalloc;
use crate::pcode::{
    blocks_contiguous, jump_dst, lemma_block_bounds, lemma_sum_max_agree,
    lemma_sum_prefix_agree, lemma_sum_range, recompute_layout, short_jump_fits, sum_max_len,
    PCode,
};
use crate::pinst::{PAMode, PInst, POffset, PRegMemImm};
use crate::solver::{Alloc, Edit, PassError, ProgPoint};
use crate::types::{rsp, spec_rsp, Binop, PReg, Size};

verus! {

/// A physical program under construction, plus the forward jumps whose
/// encodings are still undecided: for each, the provisional address just
/// after the jump and the jump's instruction index.
pub struct PCodeBuilder {
    pub code: PCode,
    pub fwd_jumps: Vec<(usize, usize)>,
    /// How many blocks the finished program will have; every jump target
    /// must lie below it.
    pub nblocks: usize,
}

/// Whether the short flag on jump `j` was justified when it was set: its
/// target block already had a provisional address, and the displacement
/// from the jump's provisional end to that address fits a signed byte.
pub open spec fn prov_short_ok(insts: Seq<PInst>, addr: Seq<usize>, j: int) -> bool {
    let dst = jump_dst(insts[j]);
    &&& 0 <= dst < addr.len()
    &&& -127 <= addr[dst] - sum_max_len(insts, j + 1) <= 127
}

/// Whether deferred-jump entry `k` describes a real long jump and records
/// the provisional address just after it.
pub open spec fn fwd_entry_ok(insts: Seq<PInst>, fwd: Seq<(usize, usize)>, k: int) -> bool {
    &&& fwd[k].1 < insts.len()
    &&& insts[fwd[k].1 as int].spec_is_jump() is Some
    &&& !insts[fwd[k].1 as int].spec_is_short()
    &&& fwd[k].0 as int == sum_max_len(insts, fwd[k].1 as int + 1)
}

/// The push instruction that saves one callee-saved register.
pub open spec fn push64_of(r: PReg) -> PInst {
    PInst::Push64 { src: PRegMemImm::Reg(r) }
}

/// The pop instruction that restores one callee-saved register.
pub open spec fn pop64_of(r: PReg) -> PInst {
    PInst::Pop64 { dst: r }
}

/// The stack-pointer adjustment that allocates the frame.
pub open spec fn sub_rsp_of(n: usize) -> PInst {
    PInst::Binop { op: Binop::Sub, sz: Size::S64, dst: spec_rsp(), src: PRegMemImm::Imm(n as u64) }
}

/// The stack-pointer adjustment that releases the frame.
pub open spec fn add_rsp_of(n: usize) -> PInst {
    PInst::Binop { op: Binop::Add, sz: Size::S64, dst: spec_rsp(), src: PRegMemImm::Imm(n as u64) }
}

/// What procedure entry emits: one push per callee-saved register to save,
/// in order, then a stack-pointer subtraction when the frame is nonempty.
/// With nothing to save and a zero-size frame this is empty.
pub open spec fn prologue_insts(saved: Seq<PReg>, stack_size: usize) -> Seq<PInst> {
    saved.map_values(|r: PReg| push64_of(r))
        + if stack_size != 0 { seq![sub_rsp_of(stack_size)] } else { Seq::<PInst>::empty() }
}

/// What procedure exit emits: the mirror of the prologue — a stack-pointer
/// addition when the frame is nonempty, pops in reverse save order, then a
/// return. With nothing to save and a zero-size frame this is a bare
/// return.
pub open spec fn epilogue_insts(saved: Seq<PReg>, stack_size: usize) -> Seq<PInst> {
    (if stack_size != 0 { seq![add_rsp_of(stack_size)] } else { Seq::<PInst>::empty() })
        + Seq::new(saved.len(), |i: int| pop64_of(saved[saved.len() - 1 - i]))
        + seq![PInst::Ret]
}

/// With zero clobbered callee-saved registers and a zero-size frame, the
/// prologue emits nothing and the epilogue is a bare return.
pub proof fn lemma_empty_frame(saved: Seq<PReg>)
    requires
        saved.len() == 0,
    ensures
        prologue_insts(saved, 0) =~= Seq::<PInst>::empty(),
        epilogue_insts(saved, 0) =~= seq![PInst::Ret],
{
}

/// The stack-pointer-relative addressing mode of solver spill slot `n`,
/// with the spill area based `rs` bytes above the stack pointer.
pub open spec fn spill_pamode(rs: usize, n: usize) -> PAMode {
    PAMode { off: POffset::Real((rs + 8 * n) as usize), base: Some(spec_rsp()), si: None }
}

/// The instructions one edit becomes: a register-to-register move — elided
/// entirely when source and destination coincide — a spill store, or a
/// spill load. (A stack-to-stack edit becomes an error, not instructions.)
pub open spec fn edit_insts(e: Edit, rs: usize) -> Seq<PInst> {
    match (e.from, e.to) {
        (Alloc::Reg(src), Alloc::Reg(dst)) => if src == dst {
            Seq::<PInst>::empty()
        } else {
            seq![PInst::MovRR { sz: Size::S64, dst, src }]
        },
        (Alloc::Reg(src), Alloc::Stack(n)) => seq![
            PInst::Store { spill: true, sz: Size::S64, src, dst: spill_pamode(rs, n) },
        ],
        (Alloc::Stack(n), Alloc::Reg(dst)) => seq![
            PInst::Load64 { spill: true, dst, src: spill_pamode(rs, n) },
        ],
        (Alloc::Stack(_), Alloc::Stack(_)) => Seq::<PInst>::empty(),
    }
}

/// A solver-inserted edit whose source and destination resolve to the same
/// physical register produces zero emitted instructions.
pub proof fn lemma_move_elision(e: Edit, rs: usize)
    requires
        e.from matches Alloc::Reg(src) && e.to == Alloc::Reg(src),
    ensures
        edit_insts(e, rs).len() == 0,
{
}

/// The instructions the edits in positions `a..b` become, in order.
pub open spec fn edits_insts(edits: Seq<(ProgPoint, Edit)>, a: int, b: int, rs: usize) -> Seq<PInst>
    decreases b - a,
{
    if a >= b {
        Seq::<PInst>::empty()
    } else {
        edit_insts(edits[a].1, rs) + edits_insts(edits, a + 1, b, rs)
    }
}

/// Extending an edit run by one appends that edit's instructions.
pub proof fn lemma_edits_insts_snoc(edits: Seq<(ProgPoint, Edit)>, a: int, b: int, rs: usize)
    requires
        0 <= a <= b < edits.len(),
    ensures
        edits_insts(edits, a, b + 1, rs)
            =~= edits_insts(edits, a, b, rs) + edit_insts(edits[b].1, rs),
    decreases b - a,
{
    if a < b {
        lemma_edits_insts_snoc(edits, a + 1, b, rs);
        assert(edits_insts(edits, a, b + 1, rs)
            == edit_insts(edits[a].1, rs) + edits_insts(edits, a + 1, b + 1, rs));
        assert(edits_insts(edits, a, b, rs)
            == edit_insts(edits[a].1, rs) + edits_insts(edits, a + 1, b, rs));
    } else {
        assert(edits_insts(edits, a, b, rs) == Seq::<PInst>::empty());
        assert(edits_insts(edits, a, b + 1, rs)
            == edit_insts(edits[a].1, rs) + edits_insts(edits, a + 1, b + 1, rs));
        assert(edits_insts(edits, a + 1, b + 1, rs) == Seq::<PInst>::empty());
    }
}

/// Whether every spill slot named by an edit at position `from` or later
/// stays inside the offset cap when based `rs` bytes above the stack
/// pointer.
pub open spec fn edits_slots_ok(edits: Seq<(ProgPoint, Edit)>, from: int, rs: usize) -> bool {
    forall|k: int|
        from <= k < edits.len() ==> {
            &&& ((#[trigger] edits[k]).1.from matches Alloc::Stack(n) ==> rs + 8 * n <= 0x7FFF_FFFF)
            &&& (edits[k].1.to matches Alloc::Stack(n) ==> rs + 8 * n <= 0x7FFF_FFFF)
        }
}

impl PCodeBuilder {
    /// The build-phase accounting invariant: the running length is the
    /// provisional (all-jumps-long) length of everything emitted; every
    /// short flag already set was justified against the provisional address
    /// table; and the deferred list records real long jumps at strictly
    /// increasing indices.
    pub open spec fn wf(self) -> bool {
        &&& self.code.len as int
            == sum_max_len(self.code.insts@, self.code.insts@.len() as int)
        &&& forall|j: int|
            0 <= j < self.code.insts@.len() && (#[trigger] self.code.insts@[j]).spec_is_short()
                ==> prov_short_ok(self.code.insts@, self.code.block_addr@, j)
        &&& forall|k: int|
            0 <= k < self.fwd_jumps@.len()
                ==> #[trigger] fwd_entry_ok(self.code.insts@, self.fwd_jumps@, k)
        &&& forall|k1: int, k2: int|
            0 <= k1 < k2 < self.fwd_jumps@.len()
                ==> (#[trigger] self.fwd_jumps@[k1]).1 < (#[trigger] self.fwd_jumps@[k2]).1
        &&& forall|j: int|
            0 <= j < self.code.insts@.len()
                && (#[trigger] self.code.insts@[j]).spec_is_jump() is Some
                ==> 0 <= jump_dst(self.code.insts@[j]) < self.nblocks as int
    }

    /// Creates a builder with no instructions, the first block's address
    /// pinned at zero, and `stack_size` recorded in the artifact.
    pub fn new(stack_size: usize, nblocks: usize) -> (b: PCodeBuilder)
        ensures
            b.wf(),
            b.nblocks == nblocks,
            b.code.insts@.len() == 0,
            b.code.blocks@.len() == 0,
            b.code.block_addr@ =~= seq![0usize],
            b.code.block_params@.len() == 1,
            b.code.block_params@[0].len() == 0,
            b.code.stack_size == stack_size,
            b.code.saved_regs@.len() == 0,
            b.code.len == 0,
            b.fwd_jumps@.len() == 0,
    {
        let mut block_addr: Vec<usize> = Vec::new();
        block_addr.push(0);
        let mut block_params: Vec<Vec<(u32, crate::pinst::PRegMem)>> = Vec::new();
        block_params.push(Vec::new());
        PCodeBuilder {
            code: PCode {
                insts: Vec::new(),
                blocks: Vec::new(),
                block_addr,
                block_params,
                stack_size,
                saved_regs: Vec::new(),
                len: 0,
            },
            fwd_jumps: Vec::new(),
            nblocks,
        }
    }

    /// Appends one instruction. Its provisional (long) length is added to
    /// the running total. A jump whose target block already has a
    /// provisional address is shortened now if the displacement fits a
    /// signed byte; a jump to a block not yet placed is recorded on the
    /// deferred list, to be decided in the finish phase.
    pub fn push(&mut self, inst: PInst)
        requires
            old(self).wf(),
            !inst.spec_is_short(),
            inst.spec_is_jump() is Some ==> 0 <= jump_dst(inst) < old(self).nblocks as int,
            old(self).code.insts@.len() < 0x07FF_FFFF,
        ensures
            final(self).wf(),
            final(self).nblocks == old(self).nblocks,
            final(self).code.blocks@ == old(self).code.blocks@,
            final(self).code.block_addr@ == old(self).code.block_addr@,
            final(self).code.block_params@ == old(self).code.block_params@,
            final(self).code.stack_size == old(self).code.stack_size,
            final(self).code.saved_regs@ == old(self).code.saved_regs@,
            final(self).code.len == old(self).code.len + inst.spec_max_len(),
            final(self).code.insts@.len() == old(self).code.insts@.len() + 1,
            match inst.spec_is_jump() {
                Option::None => final(self).code.insts@ == old(self).code.insts@.push(inst)
                    && final(self).fwd_jumps@ == old(self).fwd_jumps@,
                Option::Some(dst) => {
                    if (dst as int) < old(self).code.block_addr@.len() {
                        let newlen = old(self).code.len + inst.spec_max_len();
                        let ub = old(self).code.block_addr@[dst as int];
                        let fits = newlen >= ub && newlen - ub <= 127;
                        &&& final(self).code.insts@ == old(self).code.insts@.push(
                            if fits { inst.spec_shorten() } else { inst },
                        )
                        &&& final(self).fwd_jumps@ == old(self).fwd_jumps@
                        &&& (fits ==> final(self).code.insts@[old(self).code.insts@.len() as int]
                            .spec_is_short())
                    } else {
                        &&& final(self).code.insts@ == old(self).code.insts@.push(inst)
                        &&& final(self).fwd_jumps@ == old(self).fwd_jumps@.push(
                            (
                                (old(self).code.len + inst.spec_max_len()) as usize,
                                old(self).code.insts@.len() as usize,
                            ),
                        )
                    }
                },
            },
    {
        let ghost insts0 = self.code.insts@;
        let ghost addr0 = self.code.block_addr@;
        let ghost fwd0 = self.fwd_jumps@;
        let ghost n = insts0.len() as int;
        proof {
            inst.lemma_len_bounds();
            inst.lemma_shorten_facts();
            assert(inst.spec_len() == inst.spec_max_len());
            lemma_sum_range(self.code.insts@, 0, self.code.insts@.len() as int);
        }
        let l = inst.len();
        self.code.len = self.code.len + l;
        match inst.is_jump() {
            Some(dst) => {
                if dst < self.code.block_addr.len() {
                    let ub = self.code.block_addr[dst];
                    let fits = self.code.len >= ub && self.code.len - ub <= 127;
                    let stored = if fits { inst.shorten() } else { inst };
                    proof {
                        stored.lemma_shorten_facts();
                    }
                    self.code.insts.push(stored);
                    proof {
                        lemma_append_keeps_wf(insts0, addr0, fwd0, self.code.insts@, stored);
                        if fits {
                            assert(jump_dst(stored) == dst);
                            assert(prov_short_ok(self.code.insts@, addr0, n));
                        } else {
                            assert(!stored.spec_is_short());
                        }
                    }
                } else {
                    self.code.insts.push(inst);
                    let idx = self.code.insts.len() - 1;
                    self.fwd_jumps.push((self.code.len, idx));
                    proof {
                        lemma_append_keeps_wf(insts0, addr0, fwd0, self.code.insts@, inst);
                        let fwd1 = self.fwd_jumps@;
                        assert(fwd_entry_ok(self.code.insts@, fwd1, fwd0.len() as int));
                        assert forall|k: int| 0 <= k < fwd1.len()
                            implies #[trigger] fwd_entry_ok(self.code.insts@, fwd1, k) by {
                            if k < fwd0.len() {
                                assert(fwd1[k] == fwd0[k]);
                                assert(fwd_entry_ok(self.code.insts@, fwd0, k));
                            }
                        }
                        assert forall|k1: int, k2: int| 0 <= k1 < k2 < fwd1.len()
                            implies (#[trigger] fwd1[k1]).1 < (#[trigger] fwd1[k2]).1 by {
                            if k2 < fwd0.len() {
                                assert(fwd0[k1].1 < fwd0[k2].1);
                            } else {
                                assert(fwd_entry_ok(insts0, fwd0, k1));
                            }
                        }
                    }
                }
            },
            None => {
                self.code.insts.push(inst);
                proof {
                    lemma_append_keeps_wf(insts0, addr0, fwd0, self.code.insts@, inst);
                    assert(!inst.spec_is_short());
                }
            },
        }
    }

    /// Emits the procedure prologue: saves each selected callee-saved
    /// register with a push, in the given fixed order, then allocates the
    /// frame by subtracting `stack_size` from the stack pointer when it is
    /// nonzero.
    pub fn push_prologue(&mut self, stack_size: usize, saved_regs: &Vec<PReg>)
        requires
            old(self).wf(),
            saved_regs@.len() <= 16,
            old(self).code.insts@.len() + saved_regs@.len() + 1 <= 0x07FF_FFFF,
        ensures
            final(self).wf(),
            final(self).nblocks == old(self).nblocks,
            final(self).code.blocks@ == old(self).code.blocks@,
            final(self).code.block_addr@ == old(self).code.block_addr@,
            final(self).code.block_params@ == old(self).code.block_params@,
            final(self).code.stack_size == old(self).code.stack_size,
            final(self).code.saved_regs@ == old(self).code.saved_regs@,
            final(self).fwd_jumps@ == old(self).fwd_jumps@,
            final(self).code.insts@ =~= old(self).code.insts@
                + prologue_insts(saved_regs@, stack_size),
            final(self).code.len <= old(self).code.len + 8 * (saved_regs@.len() + 1),
    {
        let ghost base = self.code.insts@;
        let ghost b0 = *self;
        let n = saved_regs.len();
        let mut k: usize = 0;
        while k < n
            invariant
                self.wf(),
                k <= n == saved_regs@.len() <= 16,
                self.code.insts@ =~= base + saved_regs@.subrange(0, k as int).map_values(
                    |r: PReg| push64_of(r),
                ),
                self.code.len <= b0.code.len + 2 * k,
                self.code.insts@.len() == b0.code.insts@.len() + k,
                b0.code.insts@.len() + n + 1 <= 0x07FF_FFFF,
                self.code.blocks@ == b0.code.blocks@,
                self.code.block_addr@ == b0.code.block_addr@,
                self.code.block_params@ == b0.code.block_params@,
                self.code.stack_size == b0.code.stack_size,
                self.code.saved_regs@ == b0.code.saved_regs@,
                self.fwd_jumps@ == b0.fwd_jumps@,
                self.nblocks == b0.nblocks,
            decreases n - k,
        {
            let inst = PInst::Push64 { src: PRegMemImm::Reg(saved_regs[k]) };
            self.push(inst);
            proof {
                assert(self.code.insts@ =~= base + saved_regs@.subrange(0, k + 1).map_values(
                    |r: PReg| push64_of(r),
                ));
            }
            k = k + 1;
        }
        if stack_size != 0 {
            self.push(PInst::Binop {
                op: Binop::Sub,
                sz: Size::S64,
                dst: rsp(),
                src: PRegMemImm::Imm(stack_size as u64),
            });
        }
        proof {
            assert(saved_regs@.subrange(0, n as int) =~= saved_regs@);
            assert(self.code.insts@ =~= base + prologue_insts(saved_regs@, stack_size));
        }
    }

    /// Emits the procedure epilogue: releases the frame by adding
    /// `stack_size` back when it is nonzero, pops the saved registers in
    /// reverse save order, and returns.
    pub fn push_epilogue(&mut self, stack_size: usize, saved_regs: &Vec<PReg>)
        requires
            old(self).wf(),
            saved_regs@.len() <= 16,
            old(self).code.insts@.len() + saved_regs@.len() + 2 <= 0x07FF_FFFF,
        ensures
            final(self).wf(),
            final(self).nblocks == old(self).nblocks,
            final(self).code.blocks@ == old(self).code.blocks@,
            final(self).code.block_addr@ == old(self).code.block_addr@,
            final(self).code.block_params@ == old(self).code.block_params@,
            final(self).code.stack_size == old(self).code.stack_size,
            final(self).code.saved_regs@ == old(self).code.saved_regs@,
            final(self).fwd_jumps@ == old(self).fwd_jumps@,
            final(self).code.insts@ =~= old(self).code.insts@
                + epilogue_insts(saved_regs@, stack_size),
            final(self).code.len <= old(self).code.len + 8 * (saved_regs@.len() + 2),
    {
        let ghost base = self.code.insts@;
        let ghost b0 = *self;
        if stack_size != 0 {
            self.push(PInst::Binop {
                op: Binop::Add,
                sz: Size::S64,
                dst: rsp(),
                src: PRegMemImm::Imm(stack_size as u64),
            });
        }
        let ghost mid = self.code.insts@;
        let n = saved_regs.len();
        let mut k: usize = 0;
        while k < n
            invariant
                self.wf(),
                k <= n == saved_regs@.len() <= 16,
                mid.len() <= base.len() + 1,
                self.code.insts@ =~= mid + Seq::new(k as nat, |i: int| pop64_of(
                    saved_regs@[n - 1 - i],
                )),
                self.code.len <= b0.code.len + 8 + 2 * k,
                self.code.insts@.len() == mid.len() + k,
                mid.len() + n + 1 <= 0x07FF_FFFF,
                b0.code.insts@.len() + n + 2 <= 0x07FF_FFFF,
                self.code.blocks@ == b0.code.blocks@,
                self.code.block_addr@ == b0.code.block_addr@,
                self.code.block_params@ == b0.code.block_params@,
                self.code.stack_size == b0.code.stack_size,
                self.code.saved_regs@ == b0.code.saved_regs@,
                self.fwd_jumps@ == b0.fwd_jumps@,
                self.nblocks == b0.nblocks,
            decreases n - k,
        {
            let inst = PInst::Pop64 { dst: saved_regs[n - 1 - k] };
            self.push(inst);
            proof {
                assert(self.code.insts@ =~= mid + Seq::new((k + 1) as nat, |i: int| pop64_of(
                    saved_regs@[n - 1 - i],
                )));
            }
            k = k + 1;
        }
        self.push(PInst::Ret);
        proof {
            assert(Seq::new(n as nat, |i: int| pop64_of(saved_regs@[n - 1 - i]))
                =~= Seq::new(saved_regs@.len(), |i: int| pop64_of(
                saved_regs@[saved_regs@.len() - 1 - i],
            )));
            assert(self.code.insts@ =~= base + epilogue_insts(saved_regs@, stack_size));
        }
    }

    /// Applies every edit anchored at program point `pt`, starting at edit
    /// position `epos` and leaving it on the first edit past the run. Each
    /// edit becomes a register move — elided when source and destination
    /// coincide — a spill store, or a spill load; an edit between two stack
    /// locations is a solver contract violation and aborts.
    pub fn apply_edits(
        &mut self,
        edits: &Vec<(ProgPoint, Edit)>,
        epos: &mut usize,
        ar: &ApplyRegalloc,
        pt: ProgPoint,
    ) -> (r: Result<(), PassError>)
        requires
            old(self).wf(),
            *old(epos) <= edits@.len(),
            edits_slots_ok(edits@, *old(epos) as int, ar.regspill_off),
            old(self).code.insts@.len() + (edits@.len() - *old(epos)) <= 0x07FF_FFFF,
        ensures
            final(self).wf(),
            final(self).nblocks == old(self).nblocks,
            final(self).code.blocks@ == old(self).code.blocks@,
            final(self).code.block_addr@ == old(self).code.block_addr@,
            final(self).code.block_params@ == old(self).code.block_params@,
            final(self).code.stack_size == old(self).code.stack_size,
            final(self).code.saved_regs@ == old(self).code.saved_regs@,
            final(self).fwd_jumps@ == old(self).fwd_jumps@,
            *old(epos) <= *final(epos) <= edits@.len(),
            forall|k: int|
                *old(epos) <= k < *final(epos) ==> (#[trigger] edits@[k]).0 == pt,
            final(self).code.len <= old(self).code.len + 8 * (*final(epos) - *old(epos)),
            final(self).code.insts@.len() <= old(self).code.insts@.len() + (*final(epos)
                - *old(epos)),
            forall|j: int|
                0 <= j < old(self).code.insts@.len()
                    ==> #[trigger] final(self).code.insts@[j] == old(self).code.insts@[j],
            r is Ok ==> final(self).code.insts@ =~= old(self).code.insts@ + edits_insts(
                edits@,
                *old(epos) as int,
                *final(epos) as int,
                ar.regspill_off,
            ),
            r is Ok ==> (*final(epos) < edits@.len() ==> edits@[*final(epos) as int].0 != pt),
            r is Ok ==> forall|k: int|
                *old(epos) <= k < *final(epos)
                    ==> !((#[trigger] edits@[k]).1.from is Stack && edits@[k].1.to is Stack),
            r is Err ==> {
                &&& r == Err::<(), PassError>(PassError::InvalidEdit { inst: pt.inst })
                &&& *final(epos) >= 1
                &&& edits@[*final(epos) - 1].0 == pt
                &&& edits@[*final(epos) - 1].1.from is Stack
                &&& edits@[*final(epos) - 1].1.to is Stack
            },
    {
                loop
            invariant
                self.wf(),
                *old(epos) <= *epos <= edits@.len(),
                edits_slots_ok(edits@, *old(epos) as int, ar.regspill_off),
                forall|k: int| *old(epos) <= k < *epos ==> (#[trigger] edits@[k]).0 == pt,
                forall|k: int|
                    *old(epos) <= k < *epos
                        ==> !((#[trigger] edits@[k]).1.from is Stack && edits@[k].1.to is Stack),
                self.code.insts@ =~= old(self).code.insts@ + edits_insts(
                    edits@,
                    *old(epos) as int,
                    *epos as int,
                    ar.regspill_off,
                ),
                self.code.len <= old(self).code.len + 8 * (*epos - *old(epos)),
                self.code.insts@.len() <= old(self).code.insts@.len() + (*epos - *old(epos)),
                forall|j: int|
                    0 <= j < old(self).code.insts@.len()
                        ==> #[trigger] self.code.insts@[j] == old(self).code.insts@[j],
                old(self).code.insts@.len() + (edits@.len() - *old(epos)) <= 0x07FF_FFFF,
                self.code.blocks@ == old(self).code.blocks@,
                self.code.block_addr@ == old(self).code.block_addr@,
                self.code.block_params@ == old(self).code.block_params@,
                self.code.stack_size == old(self).code.stack_size,
                self.code.saved_regs@ == old(self).code.saved_regs@,
                self.fwd_jumps@ == old(self).fwd_jumps@,
                self.nblocks == old(self).nblocks,
            ensures
                *old(epos) <= *epos <= edits@.len(),
                forall|k: int| *old(epos) <= k < *epos ==> (#[trigger] edits@[k]).0 == pt,
                self.code.len <= old(self).code.len + 8 * (*epos - *old(epos)),
                self.code.blocks@ == old(self).code.blocks@,
                self.code.block_addr@ == old(self).code.block_addr@,
                self.code.block_params@ == old(self).code.block_params@,
                self.code.stack_size == old(self).code.stack_size,
                self.code.saved_regs@ == old(self).code.saved_regs@,
                self.fwd_jumps@ == old(self).fwd_jumps@,
                self.nblocks == old(self).nblocks,
                self.wf(),
            decreases edits@.len() - *epos,
        {
            if *epos >= edits.len() {
                proof {
                    assert(self.code.insts@ =~= old(self).code.insts@ + edits_insts(
                        edits@,
                        *old(epos) as int,
                        *epos as int,
                        ar.regspill_off,
                    ));
                }
                return Ok(());
            }
            let (p, e) = edits[*epos];
            if !(p.inst == pt.inst && p.after == pt.after) {
                return Ok(());
            }
            let ghost eprev = *epos as int;
            *epos = *epos + 1;
            proof {
                lemma_edits_insts_snoc(edits@, *old(epos) as int, eprev, ar.regspill_off);
            }
            match (e.from, e.to) {
                (Alloc::Reg(src), Alloc::Reg(dst)) => {
                    if src.0 != dst.0 {
                        self.push(PInst::MovRR { sz: Size::S64, dst, src });
                    }
                    proof {
                        if src.0 == dst.0 {
                            assert(src == dst);
                        }
                        assert(self.code.insts@ =~= old(self).code.insts@ + edits_insts(
                            edits@,
                            *old(epos) as int,
                            *epos as int,
                            ar.regspill_off,
                        ));
                    }
                },
                (Alloc::Reg(src), Alloc::Stack(n)) => {
                    let dst = ar.spill(n);
                    proof {
                        assert(dst == spill_pamode(ar.regspill_off, n));
                    }
                    self.push(PInst::Store { spill: true, sz: Size::S64, src, dst });
                    proof {
                        assert(self.code.insts@ =~= old(self).code.insts@ + edits_insts(
                            edits@,
                            *old(epos) as int,
                            *epos as int,
                            ar.regspill_off,
                        ));
                    }
                },
                (Alloc::Stack(n), Alloc::Reg(dst)) => {
                    let src = ar.spill(n);
                    proof {
                        assert(src == spill_pamode(ar.regspill_off, n));
                    }
                    self.push(PInst::Load64 { spill: true, dst, src });
                    proof {
                        assert(self.code.insts@ =~= old(self).code.insts@ + edits_insts(
                            edits@,
                            *old(epos) as int,
                            *epos as int,
                            ar.regspill_off,
                        ));
                    }
                },
                (Alloc::Stack(_), Alloc::Stack(_)) => {
                    return Err(PassError::InvalidEdit { inst: pt.inst });
                },
            }
        }
    }

    /// The finish phase: decides each deferred forward jump against the
    /// provisional address table — shortening it when the displacement fits
    /// a signed byte — then rebuilds the block-address table and total
    /// length from scratch, since shortening shifts everything after the
    /// shortened jump.
    ///
    /// This is a single relaxation pass, not a fixpoint: a forward jump
    /// that becomes shortenable only because another jump shrank is left
    /// long, which is always valid, merely larger.
    pub fn finish(self, saved_regs: Vec<PReg>) -> (code: PCode)
        requires
            self.wf(),
            blocks_contiguous(self.code.blocks@, self.code.insts@.len() as int),
            self.code.block_addr@.len() == self.code.blocks@.len(),
            forall|b: int|
                0 <= b < self.code.blocks@.len()
                    ==> #[trigger] self.code.block_addr@[b] as int == sum_max_len(
                    self.code.insts@,
                    self.code.blocks@[b].0 as int,
                ),
            self.nblocks as int == self.code.blocks@.len(),
            self.code.insts@.len() <= 0x0400_0000,
            self.code.block_params@.len() == self.code.blocks@.len(),
        ensures
            code.wf(),
            code.blocks@ == self.code.blocks@,
            code.block_params@ == self.code.block_params@,
            code.stack_size == self.code.stack_size,
            code.saved_regs@ == saved_regs@,
            code.insts@.len() == self.code.insts@.len(),
            forall|j: int|
                0 <= j < code.insts@.len() ==> #[trigger] code.insts@[j] == self.code.insts@[j]
                    || code.insts@[j] == self.code.insts@[j].spec_shorten(),
            forall|k: int|
                0 <= k < self.fwd_jumps@.len() && ({
                    let ub = self.code.block_addr@[jump_dst(
                        self.code.insts@[(#[trigger] self.fwd_jumps@[k]).1 as int],
                    )];
                    ub >= self.fwd_jumps@[k].0 && ub - self.fwd_jumps@[k].0 <= 127
                }) ==> code.insts@[self.fwd_jumps@[k].1 as int].spec_is_short(),
            forall|k: int|
                0 <= k < self.fwd_jumps@.len() && !({
                    let ub = self.code.block_addr@[jump_dst(
                        self.code.insts@[(#[trigger] self.fwd_jumps@[k]).1 as int],
                    )];
                    ub >= self.fwd_jumps@[k].0 && ub - self.fwd_jumps@[k].0 <= 127
                }) ==> code.insts@[self.fwd_jumps@[k].1 as int] == self.code.insts@[self.fwd_jumps@[k].1 as int]
                    && !code.insts@[self.fwd_jumps@[k].1 as int].spec_is_short(),
    {
        let PCodeBuilder { mut code, fwd_jumps, nblocks: _ } = self;
        code.saved_regs = saved_regs;
        let ghost insts0 = code.insts@;
        let ghost addr0 = code.block_addr@;
        let ghost blocks0 = code.blocks@;
        let ghost params0 = code.block_params@;
        let ghost saved0 = code.saved_regs@;
        let ghost fwd0 = fwd_jumps@;
        proof {
            assert forall|j: int|
                0 <= j < insts0.len() && (#[trigger] insts0[j]).spec_is_short()
                implies prov_fits(insts0, blocks0, j) by {
                assert(prov_short_ok(insts0, addr0, j));
            }
        }
        let mut t: usize = 0;
        while t < fwd_jumps.len()
            invariant
                t <= fwd0.len(),
                fwd_jumps@ == fwd0,
                code.blocks@ == blocks0,
                code.block_addr@ == addr0,
                code.block_params@ == params0,
                code.saved_regs@ == saved0,
                code.stack_size == self.code.stack_size,
                code.insts@.len() == insts0.len(),
                blocks_contiguous(blocks0, insts0.len() as int),
                addr0.len() == blocks0.len(),
                forall|k: int| 0 <= k < fwd0.len() ==> #[trigger] fwd_entry_ok(insts0, fwd0, k),
                forall|k1: int, k2: int|
                    0 <= k1 < k2 < fwd0.len()
                        ==> (#[trigger] fwd0[k1]).1 < (#[trigger] fwd0[k2]).1,
                forall|b: int|
                    0 <= b < blocks0.len() ==> #[trigger] addr0[b] as int == sum_max_len(
                        insts0,
                        blocks0[b].0 as int,
                    ),
                forall|j: int|
                    0 <= j < insts0.len() && (#[trigger] insts0[j]).spec_is_jump() is Some
                        ==> 0 <= jump_dst(insts0[j]) < blocks0.len(),
                forall|j: int|
                    0 <= j < insts0.len() ==> #[trigger] code.insts@[j] == insts0[j]
                        || code.insts@[j] == insts0[j].spec_shorten(),
                forall|j: int|
                    0 <= j < insts0.len() ==> (#[trigger] code.insts@[j]).spec_max_len()
                        == insts0[j].spec_max_len() && code.insts@[j].spec_is_jump()
                        == insts0[j].spec_is_jump() && jump_dst(code.insts@[j])
                        == jump_dst(insts0[j]),
                forall|k: int|
                    t <= k < fwd0.len()
                        ==> #[trigger] code.insts@[fwd0[k].1 as int] == insts0[fwd0[k].1 as int],
                forall|k: int|
                    0 <= k < t && ({
                        let ub = addr0[jump_dst(insts0[(#[trigger] fwd0[k]).1 as int])];
                        ub >= fwd0[k].0 && ub - fwd0[k].0 <= 127
                    }) ==> code.insts@[fwd0[k].1 as int].spec_is_short(),
                forall|k: int|
                    0 <= k < t && !({
                        let ub = addr0[jump_dst(insts0[(#[trigger] fwd0[k]).1 as int])];
                        ub >= fwd0[k].0 && ub - fwd0[k].0 <= 127
                    }) ==> code.insts@[fwd0[k].1 as int] == insts0[fwd0[k].1 as int],
                forall|j: int|
                    0 <= j < insts0.len() && (#[trigger] code.insts@[j]).spec_is_short()
                        ==> prov_fits(insts0, blocks0, j),
            decreases fwd0.len() - t,
        {
            let (pos, idx) = fwd_jumps[t];
            proof {
                assert(fwd_entry_ok(insts0, fwd0, t as int));
            }
            let dst = match code.insts[idx].is_jump() {
                Some(d) => d,
                None => {
                    proof {
                        assert(false);
                    }
                    0
                },
            };
            let ub = code.block_addr[dst];
            if ub >= pos && ub - pos <= 127 {
                let ghost pre = code.insts@;
                let s = code.insts[idx].shorten();
                code.insts.set(idx, s);
                proof {
                    insts0[idx as int].lemma_shorten_facts();
                    assert(code.insts@[idx as int] == insts0[idx as int].spec_shorten());
                    assert(prov_fits(insts0, blocks0, idx as int));
                    assert forall|k: int| t + 1 <= k < fwd0.len()
                        implies #[trigger] code.insts@[fwd0[k].1 as int]
                            == insts0[fwd0[k].1 as int] by {
                        assert(fwd0[t as int].1 < fwd0[k].1);
                        assert(fwd_entry_ok(insts0, fwd0, k));
                        assert(pre[fwd0[k].1 as int] == insts0[fwd0[k].1 as int]);
                        assert(code.insts@ == pre.update(idx as int, s));
                    }
                    assert forall|k: int| 0 <= k < t && code.insts@[(#[trigger] fwd0[k]).1 as int]
                        != insts0[fwd0[k].1 as int]
                        implies pre[fwd0[k].1 as int] != insts0[fwd0[k].1 as int] by {
                        assert(fwd0[k].1 < fwd0[t as int].1);
                        assert(code.insts@ == pre.update(idx as int, s));
                    }
                }
            }
            t = t + 1;
        }
        proof {
            assert forall|j: int|
                0 <= j < insts0.len() implies (#[trigger] code.insts@[j]).spec_max_len()
                    == insts0[j].spec_max_len() by {}
        }
        proof {
            assert forall|k: int|
                0 <= k < fwd0.len() && !({
                    let ub = addr0[jump_dst(insts0[(#[trigger] fwd0[k]).1 as int])];
                    ub >= fwd0[k].0 && ub - fwd0[k].0 <= 127
                }) implies code.insts@[fwd0[k].1 as int] == insts0[fwd0[k].1 as int]
                && !code.insts@[fwd0[k].1 as int].spec_is_short() by {
                assert(fwd_entry_ok(insts0, fwd0, k));
            }
        }
        recompute_layout(&mut code);
        proof {
            let fin = code.insts@;
            assert forall|j: int|
                0 <= j < fin.len() && (#[trigger] fin[j]).spec_is_short()
                implies short_jump_fits(fin, blocks0, j) by {
                assert(prov_fits(insts0, blocks0, j));
                let dst = jump_dst(insts0[j]);
                let ts = blocks0[dst].0 as int;
                lemma_block_bounds(blocks0, insts0.len() as int, dst);
                lemma_sum_max_agree(fin, insts0, ts);
                lemma_sum_max_agree(fin, insts0, j + 1);
                if ts >= j + 1 {
                    lemma_sum_range(fin, j + 1, ts);
                } else {
                    lemma_sum_range(fin, ts, j + 1);
                }
            }
        }
        code
    }
}

/// Whether, measured entirely with provisional (all-long) lengths, the
/// displacement between the end of jump `j` and its target block's start
/// fits a signed byte. Every shortening decision — backward at push time,
/// forward in the finish phase — establishes exactly this, and shortening
/// only shrinks displacements, so a short jump always reaches its target
/// in the final layout.
pub open spec fn prov_fits(insts0: Seq<PInst>, blocks: Seq<(usize, usize)>, j: int) -> bool {
    let dst = jump_dst(insts0[j]);
    &&& 0 <= dst < blocks.len()
    &&& -127 <= sum_max_len(insts0, blocks[dst].0 as int) - sum_max_len(insts0, j + 1) <= 127
}

/// After appending one instruction, the provisional sums over the old
/// prefix are unchanged, so the length accounting, the justification of
/// every old short flag, and the deferred-list entries all carry over to
/// the extended instruction list.
pub proof fn lemma_append_keeps_wf(
    insts0: Seq<PInst>,
    addr: Seq<usize>,
    fwd: Seq<(usize, usize)>,
    s1: Seq<PInst>,
    stored: PInst,
)
    requires
        s1.len() == insts0.len() + 1,
        forall|i: int| 0 <= i < insts0.len() ==> s1[i] == insts0[i],
        s1[insts0.len() as int] == stored,
        forall|j: int|
            0 <= j < insts0.len() && (#[trigger] insts0[j]).spec_is_short()
                ==> prov_short_ok(insts0, addr, j),
        forall|k: int| 0 <= k < fwd.len() ==> #[trigger] fwd_entry_ok(insts0, fwd, k),
    ensures
        forall|m: int|
            0 <= m <= insts0.len()
                ==> #[trigger] sum_max_len(s1, m) == sum_max_len(insts0, m),
        sum_max_len(s1, s1.len() as int)
            == sum_max_len(insts0, insts0.len() as int) + stored.spec_max_len(),
        forall|j: int|
            0 <= j < insts0.len() && (#[trigger] s1[j]).spec_is_short()
                ==> prov_short_ok(s1, addr, j),
        forall|k: int| 0 <= k < fwd.len() ==> #[trigger] fwd_entry_ok(s1, fwd, k),
{
    assert forall|m: int| 0 <= m <= insts0.len()
        implies #[trigger] sum_max_len(s1, m) == sum_max_len(insts0, m) by {
        lemma_sum_prefix_agree(s1, insts0, m);
    }
    assert(sum_max_len(s1, s1.len() as int)
        == sum_max_len(s1, insts0.len() as int) + s1[insts0.len() as int].spec_max_len());
    assert forall|j: int| 0 <= j < insts0.len() && (#[trigger] s1[j]).spec_is_short()
        implies prov_short_ok(s1, addr, j) by {
        assert(insts0[j].spec_is_short());
        assert(prov_short_ok(insts0, addr, j));
        assert(sum_max_len(s1, j + 1) == sum_max_len(insts0, j + 1));
    }
    assert forall|k: int| 0 <= k < fwd.len() implies #[trigger] fwd_entry_ok(s1, fwd, k) by {
        assert(fwd_entry_ok(insts0, fwd, k));
        assert(sum_max_len(s1, fwd[k].1 as int + 1) == sum_max_len(insts0, fwd[k].1 as int + 1));
    }
}

/// Tracks, while lowering walks the virtual instruction stream, where the
/// current physical block began and which virtual instruction index ends
/// the current virtual block.
pub struct BlockBuilder {
    /// The physical instruction index where the current block began.
    pub start: usize,
    /// The current virtual block's index.
    pub cur: usize,
    /// The virtual instruction index where the current block ends, or
    /// `usize::MAX` once every block is finished.
    pub next: usize,
}

impl BlockBuilder {
    /// Recomputes where the current virtual block ends.
    pub fn next(&mut self, blocks: &Vec<(usize, usize)>)
        ensures
            final(self).start == old(self).start,
            final(self).cur == old(self).cur,
            final(self).next == if (old(self).cur as int) < blocks@.len() {
                blocks@[old(self).cur as int].1
            } else {
                usize::MAX
            },
    {
        self.next = if self.cur < blocks.len() {
            blocks[self.cur].1
        } else {
            usize::MAX
        };
    }

    /// Starts walking the given virtual block table from its first block.
    pub fn new(blocks: &Vec<(usize, usize)>) -> (b: BlockBuilder)
        ensures
            b.start == 0,
            b.cur == 0,
            b.next == if blocks@.len() > 0 {
                blocks@[0].1
            } else {
                usize::MAX
            },
    {
        let mut this = BlockBuilder { start: 0, cur: 0, next: 0 };
        this.next(blocks);
        this
    }

    /// Closes the current physical block: records its half-open instruction
    /// range in the artifact and moves on to the next virtual block.
    pub fn finish_block(&mut self, code: &mut PCodeBuilder, blocks: &Vec<(usize, usize)>)
        requires
            old(code).wf(),
            old(self).cur < usize::MAX,
        ensures
            final(code).wf(),
            final(code).code.blocks@ == old(code).code.blocks@.push(
                (old(self).start, old(code).code.insts@.len() as usize),
            ),
            final(code).code.insts@ == old(code).code.insts@,
            final(code).code.block_addr@ == old(code).code.block_addr@,
            final(code).code.block_params@ == old(code).code.block_params@,
            final(code).code.stack_size == old(code).code.stack_size,
            final(code).code.saved_regs@ == old(code).code.saved_regs@,
            final(code).code.len == old(code).code.len,
            final(code).fwd_jumps@ == old(code).fwd_jumps@,
            final(code).nblocks == old(code).nblocks,
            final(self).start == old(code).code.insts@.len(),
            final(self).cur == old(self).cur + 1,
            final(self).next == if (old(self).cur as int + 1) < blocks@.len() {
                blocks@[old(self).cur as int + 1].1
            } else {
                usize::MAX
            },
    {
        let end = code.code.insts.len();
        self.cur = self.cur + 1;
        self.next(blocks);
        code.code.blocks.push((self.start, end));
        self.start = end;
    }
}

} // verus!
