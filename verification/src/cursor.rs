//! The allocation cursor: a one-directional reader over the solver's flat
//! allocation list. It resolves one virtual operand at a time, substitutes
//! frame offsets for spill-relative addresses, and checks at every
//! instruction boundary that consumption is still aligned with the solver's
//! cumulative counts.

use vstd::prelude::*;
use crate::pinst::{PAMode, POffset, PRegMem, PRegMemImm, PShiftIndex};
use crate::solver::{
    alloc_at, amode_allocs_ok, reg_at, rm_allocs_ok, rmi_allocs_ok, Alloc, PassError,
};
use crate::types::{rsp, spec_rsp, PReg};
use crate::vcode::{AMode, Offset, RegMem, RegMemImm};

verus! {

/// A sequential reader that applies the solver's result to one operand at a
/// time. `pos` counts the allocations consumed so far; `opos` counts the
/// instruction boundaries passed.
pub struct ApplyRegalloc {
    /// The solver's flat allocation list.
    pub allocs: Vec<Alloc>,
    /// How many allocations have been consumed.
    pub pos: usize,
    /// The solver's per-instruction cumulative counts.
    pub offsets: Vec<usize>,
    /// The next instruction boundary to check.
    pub opos: usize,
    /// Byte offset of the solver's spill-slot area from the stack pointer.
    pub regspill_off: usize,
    /// Byte offset of each declared spill region from the stack pointer.
    pub spill_map: Vec<usize>,
}

/// The cursor's read-only tables: everything except the two positions.
pub open spec fn same_tables(a: ApplyRegalloc, b: ApplyRegalloc) -> bool {
    &&& a.allocs@ == b.allocs@
    &&& a.offsets@ == b.offsets@
    &&& a.regspill_off == b.regspill_off
    &&& a.spill_map@ == b.spill_map@
}

/// The physical form of a non-spill displacement.
pub open spec fn conv_offset(o: Offset) -> POffset {
    match o {
        Offset::Real(n) => POffset::Real(n),
        Offset::Global(s, n) => POffset::Global(s, n),
        Offset::ConstAddr(c, n) => POffset::ConstAddr(c, n),
        // spill displacements are resolved through the frame layout, never
        // converted directly
        Offset::Spill(_, _) => POffset::Real(0),
    }
}

/// Range conditions `mem` needs of a virtual addressing mode against this
/// cursor: a spill-relative displacement names a mapped region, its
/// resolved offset stays in range, and it carries no base register.
pub open spec fn amode_in_range(a: AMode, sm: Seq<usize>) -> bool {
    a.off matches Offset::Spill(sp, extra)
        ==> a.base is None && sp < sm.len() && sm[sp as int] + extra <= 0x7FFF_FFFF
}

/// The same conditions for a register-or-memory operand.
pub open spec fn rm_in_range(rm: RegMem, sm: Seq<usize>) -> bool {
    rm matches RegMem::Mem(a) ==> amode_in_range(a, sm)
}

/// The same conditions for a register/memory/immediate operand.
pub open spec fn rmi_in_range(rmi: RegMemImm, sm: Seq<usize>) -> bool {
    rmi matches RegMemImm::Mem(a) ==> amode_in_range(a, sm)
}

/// How `mem` resolves the virtual addressing mode `a`, reading allocations
/// from position `p`, to the physical mode `m`: a spill-relative
/// displacement becomes a concrete stack-pointer offset from the slot map
/// `sm`; otherwise the displacement is carried over and a present base
/// register is read from the allocation list; a present index register is
/// read next.
pub open spec fn amode_resolves_to(
    a: AMode,
    allocs: Seq<Alloc>,
    p: int,
    sm: Seq<usize>,
    m: PAMode,
) -> bool {
    &&& match a.off {
        Offset::Spill(sp, extra) => {
            &&& m.off matches POffset::Real(o)
            &&& o as int == sm[sp as int] + extra
            &&& m.base == Some(spec_rsp())
        },
        _ => {
            &&& m.off == conv_offset(a.off)
            &&& match a.base {
                Some(_) => m.base matches Some(pr) && allocs[p] == Alloc::Reg(pr),
                None => m.base is None,
            }
        },
    }
    &&& match a.si {
        Some(si) => {
            &&& m.si matches Some(psi)
            &&& psi.shift == si.shift
            &&& allocs[p + (if a.base is Some { 1int } else { 0 })] == Alloc::Reg(psi.index)
        },
        None => m.si is None,
    }
}

/// How a register-or-memory operand resolves.
pub open spec fn rm_resolves_to(
    rm: RegMem,
    allocs: Seq<Alloc>,
    p: int,
    sm: Seq<usize>,
    m: PRegMem,
) -> bool {
    match rm {
        RegMem::Reg(_) => m matches PRegMem::Reg(pr) && allocs[p] == Alloc::Reg(pr),
        RegMem::Mem(a) => m matches PRegMem::Mem(pm) && amode_resolves_to(a, allocs, p, sm, pm),
    }
}

/// How a register/memory/immediate operand resolves.
pub open spec fn rmi_resolves_to(
    rmi: RegMemImm,
    allocs: Seq<Alloc>,
    p: int,
    sm: Seq<usize>,
    m: PRegMemImm,
) -> bool {
    match rmi {
        RegMemImm::Reg(_) => m matches PRegMemImm::Reg(pr) && allocs[p] == Alloc::Reg(pr),
        RegMemImm::Mem(a) => m matches PRegMemImm::Mem(pm)
            && amode_resolves_to(a, allocs, p, sm, pm),
        RegMemImm::Imm(i) => m == PRegMemImm::Imm(i),
    }
}

impl ApplyRegalloc {
    /// Makes a cursor over the solver's allocation and count lists, with the
    /// frame layout's spill-area offset and region offset table.
    pub fn new(
        allocs: Vec<Alloc>,
        offsets: Vec<usize>,
        regspill_off: usize,
        spill_map: Vec<usize>,
    ) -> (a: ApplyRegalloc)
        ensures
            a.allocs@ == allocs@,
            a.offsets@ == offsets@,
            a.regspill_off == regspill_off,
            a.spill_map@ == spill_map@,
            a.pos == 0,
            a.opos == 0,
    {
        ApplyRegalloc { allocs, pos: 0, offsets, opos: 0, regspill_off, spill_map }
    }

    /// The stack-pointer-relative address of the solver's spill slot `n`:
    /// slots are 8-byte cells laid out consecutively from the spill area's
    /// base offset.
    pub fn spill(&self, n: usize) -> (m: PAMode)
        requires
            self.regspill_off + 8 * n <= 0x7FFF_FFFF,
        ensures
            m.off matches POffset::Real(o) && o as int == self.regspill_off + 8 * n,
            m.base == Some(spec_rsp()),
            m.si is None,
    {
        PAMode { off: POffset::Real(self.regspill_off + 8 * n), base: Some(rsp()), si: None }
    }

    /// Checks one instruction boundary: the allocations consumed so far must
    /// equal the solver's cumulative count for the instruction about to be
    /// lowered. A mismatch means the solver and this pass disagree about
    /// operand order, which can never be recovered locally.
    pub fn next_inst(&mut self) -> (r: Result<(), PassError>)
        ensures
            same_tables(*final(self), *old(self)),
            final(self).pos == old(self).pos,
            r is Ok <==> old(self).opos < old(self).offsets@.len()
                && old(self).offsets@[old(self).opos as int] == old(self).pos,
            r is Ok ==> final(self).opos == old(self).opos + 1,
            r is Err ==> final(self).opos == old(self).opos
                && r == Err::<(), PassError>(PassError::Misalignment { inst: old(self).opos }),
    {
        if self.opos < self.offsets.len() && self.offsets[self.opos] == self.pos {
            self.opos = self.opos + 1;
            Ok(())
        } else {
            Err(PassError::Misalignment { inst: self.opos })
        }
    }

    /// Consumes the next allocation, whatever it is.
    pub fn next(&mut self) -> (r: Result<Alloc, PassError>)
        ensures
            same_tables(*final(self), *old(self)),
            final(self).opos == old(self).opos,
            r is Ok <==> alloc_at(old(self).allocs@, old(self).pos as int),
            r matches Ok(a) ==> final(self).pos == old(self).pos + 1
                && a == old(self).allocs@[old(self).pos as int],
            r is Err ==> *final(self) == *old(self)
                && r == Err::<Alloc, PassError>(PassError::AllocsExhausted),
    {
        if self.pos < self.allocs.len() {
            let a = self.allocs[self.pos];
            self.pos = self.pos + 1;
            Ok(a)
        } else {
            Err(PassError::AllocsExhausted)
        }
    }

    /// Consumes the next `n` allocations without reading them: the ABI-
    /// constrained operands of calls, returns and block-parameter passes
    /// appear in no emitted instruction.
    pub fn skip(&mut self, n: usize) -> (r: Result<(), PassError>)
        ensures
            same_tables(*final(self), *old(self)),
            final(self).opos == old(self).opos,
            r is Ok <==> old(self).pos + n <= old(self).allocs@.len(),
            r is Ok ==> final(self).pos == old(self).pos + n,
            r is Err ==> *final(self) == *old(self)
                && r == Err::<(), PassError>(PassError::AllocsExhausted),
    {
        if n <= self.allocs.len() && self.pos <= self.allocs.len() - n {
            self.pos = self.pos + n;
            Ok(())
        } else {
            Err(PassError::AllocsExhausted)
        }
    }

    /// Consumes the next allocation, which must be a register: a
    /// register-class operand resolved to a spill slot is a solver contract
    /// violation.
    pub fn reg(&mut self) -> (r: Result<PReg, PassError>)
        ensures
            same_tables(*final(self), *old(self)),
            final(self).opos == old(self).opos,
            r is Ok <==> reg_at(old(self).allocs@, old(self).pos as int),
            r matches Ok(pr) ==> final(self).pos == old(self).pos + 1
                && old(self).allocs@[old(self).pos as int] == Alloc::Reg(pr),
            r is Err ==> *final(self) == *old(self)
                && (r == Err::<PReg, PassError>(PassError::AllocsExhausted)
                    || r == Err::<PReg, PassError>(PassError::ExpectedReg)),
    {
        if self.pos < self.allocs.len() {
            match self.allocs[self.pos] {
                Alloc::Reg(pr) => {
                    self.pos = self.pos + 1;
                    Ok(pr)
                },
                Alloc::Stack(_) => Err(PassError::ExpectedReg),
            }
        } else {
            Err(PassError::AllocsExhausted)
        }
    }

    /// Resolves a virtual addressing mode. A spill-relative displacement is
    /// replaced by its frame offset and consumes nothing; otherwise a
    /// present base register and a present index register each consume one
    /// allocation, in that order.
    pub fn mem(&mut self, a: &AMode) -> (r: Result<PAMode, PassError>)
        requires
            amode_in_range(*a, old(self).spill_map@),
        ensures
            same_tables(*final(self), *old(self)),
            final(self).opos == old(self).opos,
            r is Ok <==> amode_allocs_ok(*a, old(self).allocs@, old(self).pos as int),
            r matches Ok(m) ==> final(self).pos as int == old(self).pos
                + crate::vcode::amode_consumes(*a)
                && amode_resolves_to(
                *a,
                old(self).allocs@,
                old(self).pos as int,
                old(self).spill_map@,
                m,
            ),
            r is Err ==> (r == Err::<PAMode, PassError>(PassError::AllocsExhausted)
                || r == Err::<PAMode, PassError>(PassError::ExpectedReg)),
    {
        let (off, base): (POffset, Option<PReg>) = match (a.off, a.base) {
            (Offset::Spill(sp, extra), None) => (
                POffset::Real(self.spill_map[sp] + extra),
                Some(rsp()),
            ),
            (o, Some(_)) => {
                let pr = match self.reg() {
                    Ok(pr) => pr,
                    Err(e) => return Err(e),
                };
                let po = match o {
                    Offset::Real(n) => POffset::Real(n),
                    Offset::Global(s, n) => POffset::Global(s, n),
                    Offset::ConstAddr(c, n) => POffset::ConstAddr(c, n),
                    Offset::Spill(_, _) => {
                        // excluded by the precondition: spill displacements
                        // carry no base register
                        proof {
                            assert(false);
                        }
                        POffset::Real(0)
                    },
                };
                (po, Some(pr))
            },
            (o, None) => {
                let po = match o {
                    Offset::Real(n) => POffset::Real(n),
                    Offset::Global(s, n) => POffset::Global(s, n),
                    Offset::ConstAddr(c, n) => POffset::ConstAddr(c, n),
                    Offset::Spill(_, _) => {
                        // handled by the first arm
                        proof {
                            assert(false);
                        }
                        POffset::Real(0)
                    },
                };
                (po, None)
            },
        };
        let si = match a.si {
            Some(si) => {
                let idx = match self.reg() {
                    Ok(pr) => pr,
                    Err(e) => return Err(e),
                };
                Some(PShiftIndex { index: idx, shift: si.shift })
            },
            None => None,
        };
        Ok(PAMode { off, base, si })
    }

    /// Resolves a register-or-memory operand, dispatching on its static tag.
    pub fn rm(&mut self, rm: &RegMem) -> (r: Result<PRegMem, PassError>)
        requires
            rm_in_range(*rm, old(self).spill_map@),
        ensures
            same_tables(*final(self), *old(self)),
            final(self).opos == old(self).opos,
            r is Ok <==> rm_allocs_ok(*rm, old(self).allocs@, old(self).pos as int),
            r matches Ok(m) ==> final(self).pos as int == old(self).pos
                + crate::vcode::rm_consumes(*rm)
                && rm_resolves_to(
                *rm,
                old(self).allocs@,
                old(self).pos as int,
                old(self).spill_map@,
                m,
            ),
            r is Err ==> (r == Err::<PRegMem, PassError>(PassError::AllocsExhausted)
                || r == Err::<PRegMem, PassError>(PassError::ExpectedReg)),
    {
        match rm {
            RegMem::Reg(_) => {
                let pr = match self.reg() {
                    Ok(pr) => pr,
                    Err(e) => return Err(e),
                };
                Ok(PRegMem::Reg(pr))
            },
            RegMem::Mem(a) => {
                let m = match self.mem(a) {
                    Ok(m) => m,
                    Err(e) => return Err(e),
                };
                Ok(PRegMem::Mem(m))
            },
        }
    }

    /// Resolves a register/memory/immediate operand, dispatching on its
    /// static tag. An immediate consumes nothing.
    pub fn rmi(&mut self, rmi: &RegMemImm) -> (r: Result<PRegMemImm, PassError>)
        requires
            rmi_in_range(*rmi, old(self).spill_map@),
        ensures
            same_tables(*final(self), *old(self)),
            final(self).opos == old(self).opos,
            r is Ok <==> rmi_allocs_ok(*rmi, old(self).allocs@, old(self).pos as int),
            r matches Ok(m) ==> final(self).pos as int == old(self).pos
                + crate::vcode::rmi_consumes(*rmi)
                && rmi_resolves_to(
                *rmi,
                old(self).allocs@,
                old(self).pos as int,
                old(self).spill_map@,
                m,
            ),
            r is Err ==> (r == Err::<PRegMemImm, PassError>(PassError::AllocsExhausted)
                || r == Err::<PRegMemImm, PassError>(PassError::ExpectedReg)),
    {
        match rmi {
            RegMemImm::Reg(_) => {
                let pr = match self.reg() {
                    Ok(pr) => pr,
                    Err(e) => return Err(e),
                };
                Ok(PRegMemImm::Reg(pr))
            },
            RegMemImm::Mem(a) => {
                let m = match self.mem(a) {
                    Ok(m) => m,
                    Err(e) => return Err(e),
                };
                Ok(PRegMemImm::Mem(m))
            },
            RegMemImm::Imm(i) => Ok(PRegMemImm::Imm(*i)),
        }
    }
}

} // verus!
