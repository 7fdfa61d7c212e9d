//! The external register-allocation solver's result, modeled as plain data:
//! a flat allocation list in operand-enumeration order, per-instruction
//! cumulative counts, a spill-slot request, and an ordered edit list.

use vstd::prelude::*;
use crate::types::{PReg, NUM_REGS};
use crate::vcode::{amode_consumes, rm_consumes, rmi_consumes, AMode, Inst, RegMem, RegMemImm, VCode};

verus! {

/// One resolved operand: a physical register or a solver-owned spill slot.
#[derive(Clone, Copy, PartialEq, Eq, Structural, Debug)]
pub enum Alloc {
    Reg(PReg),
    /// An index into the solver's requested spill-slot array.
    Stack(usize),
}

/// An edit-insertion point: the instant just before or just after one
/// instruction.
#[derive(Clone, Copy, PartialEq, Eq, Structural, Debug)]
pub struct ProgPoint {
    pub inst: usize,
    /// `false` for the point before the instruction, `true` for after.
    pub after: bool,
}

impl ProgPoint {
    /// The point just before instruction `i`.
    pub open spec fn spec_before(i: usize) -> ProgPoint {
        ProgPoint { inst: i, after: false }
    }

    /// The point just before instruction `i`.
    #[verifier::when_used_as_spec(spec_before)]
    pub fn before(i: usize) -> (p: ProgPoint)
        ensures
            p == ProgPoint::spec_before(i),
    {
        ProgPoint { inst: i, after: false }
    }

    /// The point just after instruction `i`.
    pub open spec fn spec_after(i: usize) -> ProgPoint {
        ProgPoint { inst: i, after: true }
    }

    /// The point just after instruction `i`.
    #[verifier::when_used_as_spec(spec_after)]
    pub fn after(i: usize) -> (p: ProgPoint)
        ensures
            p == ProgPoint::spec_after(i),
    {
        ProgPoint { inst: i, after: true }
    }
}

/// Program-point order: all edits are applied in this order as lowering
/// walks the instruction stream.
pub open spec fn pt_le(a: ProgPoint, b: ProgPoint) -> bool {
    a.inst < b.inst || (a.inst == b.inst && (b.after || !a.after))
}

/// A program point's position in the total order lowering visits them:
/// before instruction 0, after instruction 0, before instruction 1, ...
pub open spec fn pt_ord(p: ProgPoint) -> int {
    2 * p.inst + (if p.after {
        1int
    } else {
        0
    })
}

/// Program-point order agrees with the numeric order.
pub proof fn lemma_pt_le_ord(a: ProgPoint, b: ProgPoint)
    requires
        pt_le(a, b),
    ensures
        pt_ord(a) <= pt_ord(b),
{
}

/// A solver-mandated move between two locations, spliced in at a program
/// point. At least one side must be a register; a stack-to-stack edit is a
/// solver contract violation.
#[derive(Clone, Copy, PartialEq, Eq, Structural, Debug)]
pub struct Edit {
    pub from: Alloc,
    pub to: Alloc,
}

/// The solver's whole-procedure result.
#[derive(Clone, PartialEq, Eq, Debug)]
pub struct AllocResult {
    /// One allocation per operand occurrence, across the whole program, in
    /// enumeration order.
    pub allocs: Vec<Alloc>,
    /// Per instruction, how many allocations belong to instructions before
    /// it: the running total lowering must agree with.
    pub inst_alloc_offsets: Vec<usize>,
    /// How many additional 8-byte spill slots the solver needs.
    pub num_spillslots: usize,
    /// Data-movement edits, ordered by program point.
    pub edits: Vec<(ProgPoint, Edit)>,
}

/// Whether an allocation's register number is in range for the machine.
pub open spec fn wf_alloc(a: Alloc, nslots: int) -> bool {
    match a {
        Alloc::Reg(r) => r.0 < NUM_REGS,
        Alloc::Stack(s) => s < nslots,
    }
}

/// Shape conditions the solver's output carries by construction: the offset
/// list parallels the instruction list and is a nondecreasing run of counts
/// into the allocation list; every register is one of the machine's; every
/// spill-slot index is one the solver requested; edits come sorted by
/// program point, each anchored at an existing instruction; and the counts
/// stay inside the caps address arithmetic needs.
pub open spec fn wf_alloc_result(out: AllocResult, v: VCode) -> bool {
    &&& out.inst_alloc_offsets@.len() == v.insts@.len()
    &&& forall|k: int|
        0 <= k < out.inst_alloc_offsets@.len()
            ==> #[trigger] out.inst_alloc_offsets@[k] <= out.allocs@.len()
    &&& forall|k: int|
        0 < k < out.inst_alloc_offsets@.len()
            ==> out.inst_alloc_offsets@[k - 1] <= #[trigger] out.inst_alloc_offsets@[k]
    &&& forall|k: int|
        0 <= k < out.allocs@.len()
            ==> wf_alloc(#[trigger] out.allocs@[k], out.num_spillslots as int)
    &&& forall|k: int|
        0 <= k < out.edits@.len()
            ==> wf_alloc((#[trigger] out.edits@[k]).1.from, out.num_spillslots as int)
                && wf_alloc(out.edits@[k].1.to, out.num_spillslots as int)
    &&& forall|k: int|
        0 <= k < out.edits@.len() ==> (#[trigger] out.edits@[k]).0.inst < v.insts@.len()
    &&& forall|j: int, k: int|
        0 <= j < k < out.edits@.len()
            ==> pt_le(#[trigger] out.edits@[j].0, #[trigger] out.edits@[k].0)
    &&& out.num_spillslots <= 0xFFFF
    &&& out.edits@.len() <= 0x40_0000
}

/// Whether position `q` of the allocation list exists.
pub open spec fn alloc_at(allocs: Seq<Alloc>, q: int) -> bool {
    0 <= q < allocs.len()
}

/// Whether position `q` exists and resolved to a register, as a
/// register-class operand demands.
pub open spec fn reg_at(allocs: Seq<Alloc>, q: int) -> bool {
    0 <= q < allocs.len() && allocs[q] is Reg
}

/// Whether the allocations consumed for addressing mode `a`, starting at
/// position `p`, exist and are registers.
pub open spec fn amode_allocs_ok(a: AMode, allocs: Seq<Alloc>, p: int) -> bool {
    &&& a.base is Some ==> reg_at(allocs, p)
    &&& a.si is Some ==> reg_at(allocs, p + (if a.base is Some { 1int } else { 0 }))
}

/// Whether the allocations consumed for a register-or-memory operand,
/// starting at position `p`, satisfy its class constraints.
pub open spec fn rm_allocs_ok(rm: RegMem, allocs: Seq<Alloc>, p: int) -> bool {
    match rm {
        RegMem::Reg(_) => reg_at(allocs, p),
        RegMem::Mem(a) => amode_allocs_ok(a, allocs, p),
    }
}

/// Whether the allocations consumed for a register/memory/immediate
/// operand, starting at position `p`, satisfy its class constraints.
pub open spec fn rmi_allocs_ok(rmi: RegMemImm, allocs: Seq<Alloc>, p: int) -> bool {
    match rmi {
        RegMemImm::Reg(_) => reg_at(allocs, p),
        RegMemImm::Mem(a) => amode_allocs_ok(a, allocs, p),
        RegMemImm::Imm(_) => true,
    }
}

/// Whether the allocation window an instruction consumes, starting at
/// position `p`, is long enough and resolves every register-class operand
/// to a register. Lowering instruction `i` succeeds exactly when this
/// holds of its window.
pub open spec fn inst_allocs_ok(i: Inst, allocs: Seq<Alloc>, p: int) -> bool {
    match i {
        Inst::Fallthrough { .. } => true,
        Inst::BlockParam { val, .. } => rm_allocs_ok(val, allocs, p),
        Inst::Binop { src2, .. } => reg_at(allocs, p) && rmi_allocs_ok(src2, allocs, p + 1)
            && reg_at(allocs, p + 1 + rmi_consumes(src2)),
        Inst::Unop { .. } => reg_at(allocs, p) && reg_at(allocs, p + 1),
        Inst::Mul { src2, .. } => alloc_at(allocs, p) && rm_allocs_ok(src2, allocs, p + 1)
            && alloc_at(allocs, p + 1 + rm_consumes(src2))
            && alloc_at(allocs, p + 2 + rm_consumes(src2)),
        Inst::Imm { .. } => reg_at(allocs, p),
        Inst::MovRR { .. } => true,
        Inst::MovPR { .. } => alloc_at(allocs, p),
        Inst::MovzxRmR { src, .. } => rm_allocs_ok(src, allocs, p)
            && reg_at(allocs, p + rm_consumes(src)),
        Inst::Load64 { src } => amode_allocs_ok(src, allocs, p)
            && reg_at(allocs, p + amode_consumes(src)),
        Inst::Lea { addr, .. } => amode_allocs_ok(addr, allocs, p)
            && reg_at(allocs, p + amode_consumes(addr)),
        Inst::MovsxRmR { src, .. } => rm_allocs_ok(src, allocs, p)
            && reg_at(allocs, p + rm_consumes(src)),
        Inst::Store { dst, .. } => reg_at(allocs, p) && amode_allocs_ok(dst, allocs, p + 1),
        Inst::ShiftImm { .. } => alloc_at(allocs, p) && reg_at(allocs, p + 1),
        Inst::ShiftRR { .. } => alloc_at(allocs, p) && alloc_at(allocs, p + 1)
            && reg_at(allocs, p + 2),
        Inst::Cmp { src2, .. } => reg_at(allocs, p)
            && rmi_allocs_ok(src2, allocs, p + 1),
        Inst::SetCC { .. } => reg_at(allocs, p),
        Inst::CMov { src2, .. } => reg_at(allocs, p) && rm_allocs_ok(src2, allocs, p + 1)
            && reg_at(allocs, p + 1 + rm_consumes(src2)),
        Inst::CallKnown { operands, .. } => p + operands@.len() <= allocs.len(),
        Inst::SysCall { operands, .. } => p + operands@.len() <= allocs.len(),
        Inst::Epilogue { params } => p + params@.len() <= allocs.len(),
        Inst::JmpKnown { params, .. } => p + params@.len() <= allocs.len(),
        Inst::JmpCond { .. } => true,
        Inst::Assert { .. } => true,
        Inst::Ud2 => true,
    }
}

/// Whether instruction `i` keeps the structural promises lowering checks
/// at run time: a fallthrough or assert names the block that starts at the
/// very next instruction.
pub open spec fn struct_ok_inst(v: VCode, i: int) -> bool {
    match v.insts@[i] {
        Inst::Fallthrough { dst } => v.blocks@[dst as int].0 == i + 1,
        Inst::Assert { dst, .. } => v.blocks@[dst as int].0 == i + 1,
        _ => true,
    }
}

/// Everything lowering checks at instruction `i`: the solver's cumulative
/// count matches the running consumption total, the allocation window is
/// long enough and respects its operands' register-class constraints, and
/// the structural promises hold.
pub open spec fn inst_checked(v: VCode, o: AllocResult, i: int) -> bool {
    &&& o.inst_alloc_offsets@[i] as int == crate::vcode::consumed_before(v.insts@, i)
    &&& inst_allocs_ok(v.insts@[i], o.allocs@, crate::vcode::consumed_before(v.insts@, i))
    &&& struct_ok_inst(v, i)
}

/// Whether every instruction before `n` passes its checks. Lowering
/// verifies exactly this as it walks, so success certifies it.
pub open spec fn certified_upto(v: VCode, o: AllocResult, n: int) -> bool {
    forall|i: int| 0 <= i < n ==> #[trigger] inst_checked(v, o, i)
}

/// The solver's result agrees with the virtual program on everything only
/// lowering can check: every cumulative count matches the running
/// consumption total, every allocation window respects its operands'
/// register-class constraints, every fallthrough and assert targets the
/// next block, and no edit moves stack to stack. On such inputs the pass
/// succeeds.
pub open spec fn clean(v: VCode, o: AllocResult) -> bool {
    &&& certified_upto(v, o, v.insts@.len() as int)
    &&& forall|k: int|
        0 <= k < o.edits@.len()
            ==> !((#[trigger] o.edits@[k]).1.from is Stack && o.edits@[k].1.to is Stack)
}

/// The ways applying the solver's result can fail. Every variant reports a
/// broken internal invariant — a disagreement between the solver, the
/// virtual program and this pass — and aborts the procedure; none is
/// recoverable.
#[derive(Clone, Copy, PartialEq, Eq, Structural, Debug)]
pub enum PassError {
    /// The allocations consumed before lowering the given instruction do not
    /// match the solver's cumulative count for it.
    Misalignment { inst: usize },
    /// Lowering needed one more allocation than the solver produced.
    AllocsExhausted,
    /// A register-class operand resolved to a spill slot.
    ExpectedReg,
    /// An edit connects two stack locations.
    InvalidEdit { inst: usize },
    /// A block-structure promise was broken: a fallthrough or assert target
    /// that is not the next block, or a spill-relative operand carrying a
    /// base register.
    BadStructure { inst: usize },
}

} // verus!
