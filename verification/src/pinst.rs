//! Physical instructions: every operand is a real register, a concrete
//! stack-relative memory reference, or an immediate. Each instruction knows
//! its encoded byte length; jumps carry a short/long encoding flag.

use vstd::prelude::*;
use crate::types::{Binop, CmpKind, CC, ExtMode, PReg, ShiftKind, Size, Unop};

verus! {

/// A resolved address displacement. Spill-slot references have already been
/// turned into concrete stack-pointer offsets; symbolic global and constant
/// addresses are carried through for the linker.
#[derive(Clone, Copy, PartialEq, Eq, Debug)]
pub enum POffset {
    /// A concrete byte offset.
    Real(usize),
    /// A symbolic global address (symbol id, byte offset), left to the linker.
    Global(u32, usize),
    /// A symbolic constant-pool address (constant id, byte offset).
    ConstAddr(u32, usize),
}

/// A scaled index register: the address contributes `index << shift`.
#[derive(Clone, Copy, PartialEq, Eq, Debug)]
pub struct PShiftIndex {
    pub index: PReg,
    pub shift: u32,
}

/// A physical addressing mode: displacement, optional base register and
/// optional scaled index register.
#[derive(Clone, Copy, PartialEq, Eq, Debug)]
pub struct PAMode {
    pub off: POffset,
    pub base: Option<PReg>,
    pub si: Option<PShiftIndex>,
}

/// A register or memory operand.
#[derive(Clone, Copy, PartialEq, Eq, Debug)]
pub enum PRegMem {
    Reg(PReg),
    Mem(PAMode),
}

/// A register, memory or immediate operand.
#[derive(Clone, Copy, PartialEq, Eq, Debug)]
pub enum PRegMemImm {
    Reg(PReg),
    Mem(PAMode),
    Imm(u64),
}

/// A physical instruction. Block targets (`dst` of the jump variants) are
/// indices into the block table of the program under construction.
#[derive(Clone, Copy, PartialEq, Eq, Debug)]
pub enum PInst {
    /// Marks that control falls through to block `dst`, which is physically
    /// next. Emits no bytes.
    Fallthrough { dst: usize },
    /// Two-operand arithmetic or logic into a register.
    Binop { op: Binop, sz: Size, dst: PReg, src: PRegMemImm },
    /// One-operand arithmetic into a register.
    Unop { op: Unop, sz: Size, dst: PReg },
    /// Widening multiply by the fixed accumulator register.
    Mul { sz: Size, src: PRegMem },
    /// Load an immediate into a register.
    Imm { sz: Size, dst: PReg, src: u64 },
    /// Register-to-register move.
    MovRR { sz: Size, dst: PReg, src: PReg },
    /// Zero-extending load or move.
    MovzxRmR { ext_mode: ExtMode, dst: PReg, src: PRegMem },
    /// 64-bit load from memory. `spill` records that this is a spill-slot
    /// reload inserted by the solver rather than program-level memory access.
    Load64 { spill: bool, dst: PReg, src: PAMode },
    /// Load effective address.
    Lea { sz: Size, dst: PReg, addr: PAMode },
    /// Sign-extending load or move.
    MovsxRmR { ext_mode: ExtMode, dst: PReg, src: PRegMem },
    /// Store to memory. `spill` records a solver-inserted spill store.
    Store { spill: bool, sz: Size, src: PReg, dst: PAMode },
    /// Shift or rotate; `num_bits` is `None` for a shift by the count
    /// register.
    Shift { sz: Size, kind: ShiftKind, num_bits: Option<u8>, dst: PReg },
    /// Compare or test.
    Cmp { sz: Size, op: CmpKind, src1: PReg, src2: PRegMemImm },
    /// Set a byte register from a condition.
    SetCC { cc: CC, dst: PReg },
    /// Conditional move.
    CMov { sz: Size, cc: CC, dst: PReg, src: PRegMem },
    /// Push a 64-bit operand onto the stack.
    Push64 { src: PRegMemImm },
    /// Pop a 64-bit value into a register.
    Pop64 { dst: PReg },
    /// Call a known procedure; the target stays symbolic for the linker.
    CallKnown { f: u32 },
    /// System call.
    SysCall,
    /// Return from the procedure.
    Ret,
    /// Unconditional jump to block `dst`.
    JmpKnown { dst: usize, short: bool },
    /// Conditional jump to block `dst` when `cc` holds.
    JmpCond { cc: CC, dst: usize, short: bool },
    /// Trap unless `cc` holds; control continues in block `dst`, which must
    /// be physically next.
    Assert { cc: CC, dst: usize },
    /// Undefined-instruction trap.
    Ud2,
}

impl PInst {
    /// The encoded byte length of this instruction, counting a jump at the
    /// length of the encoding its flag currently selects.
    pub open spec fn spec_len(self) -> int {
        match self {
            PInst::Fallthrough { .. } => 0,
            PInst::Binop { .. } => 4,
            PInst::Unop { .. } => 3,
            PInst::Mul { .. } => 4,
            PInst::Imm { .. } => 7,
            PInst::MovRR { .. } => 3,
            PInst::MovzxRmR { .. } => 4,
            PInst::Load64 { .. } => 5,
            PInst::Lea { .. } => 5,
            PInst::MovsxRmR { .. } => 4,
            PInst::Store { .. } => 5,
            PInst::Shift { .. } => 4,
            PInst::Cmp { .. } => 4,
            PInst::SetCC { .. } => 4,
            PInst::CMov { .. } => 5,
            PInst::Push64 { .. } => 2,
            PInst::Pop64 { .. } => 2,
            PInst::CallKnown { .. } => 5,
            PInst::SysCall => 2,
            PInst::Ret => 1,
            PInst::JmpKnown { short, .. } => if short { 2 } else { 5 },
            PInst::JmpCond { short, .. } => if short { 2 } else { 6 },
            PInst::Assert { .. } => 2,
            PInst::Ud2 => 2,
        }
    }

    /// The encoded byte length with any jump counted in its long form: the
    /// provisional length the build phase accounts with before shortening
    /// decisions are final.
    pub open spec fn spec_max_len(self) -> int {
        match self {
            PInst::JmpKnown { .. } => 5,
            PInst::JmpCond { .. } => 6,
            _ => self.spec_len(),
        }
    }

    /// Every encoding fits in 8 bytes, and the chosen encoding never exceeds
    /// the long one.
    pub proof fn lemma_len_bounds(self)
        ensures
            0 <= self.spec_len() <= 8,
            self.spec_len() <= self.spec_max_len() <= 8,
    {
    }

    /// The encoded byte length of this instruction.
    pub fn len(&self) -> (n: usize)
        ensures
            n as int == self.spec_len(),
    {
        match *self {
            PInst::Fallthrough { .. } => 0,
            PInst::Binop { .. } => 4,
            PInst::Unop { .. } => 3,
            PInst::Mul { .. } => 4,
            PInst::Imm { .. } => 7,
            PInst::MovRR { .. } => 3,
            PInst::MovzxRmR { .. } => 4,
            PInst::Load64 { .. } => 5,
            PInst::Lea { .. } => 5,
            PInst::MovsxRmR { .. } => 4,
            PInst::Store { .. } => 5,
            PInst::Shift { .. } => 4,
            PInst::Cmp { .. } => 4,
            PInst::SetCC { .. } => 4,
            PInst::CMov { .. } => 5,
            PInst::Push64 { .. } => 2,
            PInst::Pop64 { .. } => 2,
            PInst::CallKnown { .. } => 5,
            PInst::SysCall => 2,
            PInst::Ret => 1,
            PInst::JmpKnown { short, .. } => if short { 2 } else { 5 },
            PInst::JmpCond { short, .. } => if short { 2 } else { 6 },
            PInst::Assert { .. } => 2,
            PInst::Ud2 => 2,
        }
    }

    /// The block this instruction jumps to, if it is a relative jump whose
    /// encoding the layout phases choose.
    pub open spec fn spec_is_jump(self) -> Option<usize> {
        match self {
            PInst::JmpKnown { dst, .. } => Some(dst),
            PInst::JmpCond { dst, .. } => Some(dst),
            _ => None,
        }
    }

    /// The block this instruction jumps to, if it is a relative jump.
    #[verifier::when_used_as_spec(spec_is_jump)]
    pub fn is_jump(self) -> (r: Option<usize>)
        ensures
            r == self.spec_is_jump(),
    {
        match self {
            PInst::JmpKnown { dst, .. } => Some(dst),
            PInst::JmpCond { dst, .. } => Some(dst),
            _ => None,
        }
    }

    /// Whether this instruction is a jump currently flagged short.
    pub open spec fn spec_is_short(self) -> bool {
        match self {
            PInst::JmpKnown { short, .. } => short,
            PInst::JmpCond { short, .. } => short,
            _ => false,
        }
    }

    /// This instruction with a jump's flag set to the short encoding.
    pub open spec fn spec_shorten(self) -> PInst {
        match self {
            PInst::JmpKnown { dst, .. } => PInst::JmpKnown { dst, short: true },
            PInst::JmpCond { cc, dst, .. } => PInst::JmpCond { cc, dst, short: true },
            _ => self,
        }
    }

    /// Flag this jump for the short encoding.
    pub fn shorten(self) -> (r: PInst)
        ensures
            r == self.spec_shorten(),
    {
        match self {
            PInst::JmpKnown { dst, .. } => PInst::JmpKnown { dst, short: true },
            PInst::JmpCond { cc, dst, .. } => PInst::JmpCond { cc, dst, short: true },
            _ => self,
        }
    }

    /// Shortening keeps the jump target and the provisional (long) length,
    /// and shortening twice is the same as shortening once.
    pub proof fn lemma_shorten_facts(self)
        ensures
            self.spec_shorten().spec_max_len() == self.spec_max_len(),
            self.spec_shorten().spec_is_jump() == self.spec_is_jump(),
            self.spec_is_jump() is Some ==> self.spec_shorten().spec_is_short(),
            self.spec_is_jump() is None ==> self.spec_shorten() == self,
            self.spec_shorten().spec_shorten() == self.spec_shorten(),
    {
    }
}

} // verus!
