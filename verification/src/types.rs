//! Machine-level types: physical registers, register sets, and the fixed
//! fields (sizes, condition codes, opcodes) that instructions carry through
//! the backend unchanged.

use vstd::prelude::*;

verus! {

/// How many physical registers the machine has.
pub const NUM_REGS: u8 = 16;

/// A physical machine register, identified by its hardware number (0..16).
#[derive(Clone, Copy, PartialEq, Eq, Structural, Debug, Hash)]
pub struct PReg(pub u8);

/// The stack pointer register.
pub open spec fn spec_rsp() -> PReg {
    PReg(4)
}

/// The stack pointer register.
#[verifier::when_used_as_spec(spec_rsp)]
pub fn rsp() -> (r: PReg)
    ensures
        r == spec_rsp(),
{
    PReg(4)
}

/// A set of physical registers, as a bitset over register numbers 0..16.
#[derive(Clone, Copy, PartialEq, Eq, Structural, Debug)]
pub struct PRegSet(pub u16);

impl PRegSet {
    /// Whether register `r` is in the set.
    pub open spec fn spec_has(self, r: PReg) -> bool {
        r.0 < NUM_REGS && (self.0 >> (r.0 as u16)) & 1 == 1
    }

    /// The empty register set.
    pub fn empty() -> (s: PRegSet)
        ensures
            forall|r: PReg| !s.spec_has(r),
    {
        let s = PRegSet(0);
        assert forall|r: PReg| !s.spec_has(r) by {
            if r.0 < NUM_REGS {
                let n = r.0 as u16;
                assert((0u16 >> n) & 1 == 0) by (bit_vector);
            }
        }
        s
    }

    /// Whether register `r` is in the set.
    pub fn get(&self, r: PReg) -> (b: bool)
        ensures
            b == self.spec_has(r),
    {
        if r.0 < NUM_REGS {
            let bits = self.0;
            let n = r.0 as u16;
            let b = (bits >> n) & 1 == 1;
            b
        } else {
            false
        }
    }

    /// The set with register `r` added.
    pub fn insert(self, r: PReg) -> (s: PRegSet)
        requires
            r.0 < NUM_REGS,
        ensures
            s.spec_has(r),
            forall|q: PReg| q != r ==> s.spec_has(q) == self.spec_has(q),
    {
        let bits = self.0;
        let n = r.0 as u16;
        let out = PRegSet(bits | (1u16 << n));
        assert((bits | (1u16 << n)) >> n & 1 == 1) by (bit_vector)
            requires n < 16u16;
        assert forall|q: PReg| q != r implies out.spec_has(q) == self.spec_has(q) by {
            if q.0 < NUM_REGS {
                let m = q.0 as u16;
                assert(m != n);
                assert((bits | (1u16 << n)) >> m & 1 == bits >> m & 1) by (bit_vector)
                    requires m < 16u16, n < 16u16, m != n;
            }
        }
        out
    }

    /// The set with register `r` removed.
    pub fn remove(self, r: PReg) -> (s: PRegSet)
        requires
            r.0 < NUM_REGS,
        ensures
            !s.spec_has(r),
            forall|q: PReg| q != r ==> s.spec_has(q) == self.spec_has(q),
    {
        let bits = self.0;
        let n = r.0 as u16;
        let out = PRegSet(bits & !(1u16 << n));
        assert((bits & !(1u16 << n)) >> n & 1 == 0) by (bit_vector)
            requires n < 16u16;
        assert forall|q: PReg| q != r implies out.spec_has(q) == self.spec_has(q) by {
            if q.0 < NUM_REGS {
                let m = q.0 as u16;
                assert((bits & !(1u16 << n)) >> m & 1 == bits >> m & 1) by (bit_vector)
                    requires m < 16u16, n < 16u16, m != n;
            }
        }
        out
    }

    /// The union of the two sets.
    pub fn union(self, other: PRegSet) -> (s: PRegSet)
        ensures
            forall|q: PReg| s.spec_has(q) == (self.spec_has(q) || other.spec_has(q)),
    {
        let a = self.0;
        let b = other.0;
        let out = PRegSet(a | b);
        assert forall|q: PReg|
            out.spec_has(q) == (self.spec_has(q) || other.spec_has(q)) by {
            if q.0 < NUM_REGS {
                let m = q.0 as u16;
                assert(((a | b) >> m & 1 == 1) == (a >> m & 1 == 1 || b >> m & 1 == 1))
                    by (bit_vector)
                    requires m < 16u16;
            }
        }
        out
    }
}

/// An operand size in bytes.
#[derive(Clone, Copy, PartialEq, Eq, Structural, Debug)]
pub enum Size {
    S8,
    S16,
    S32,
    S64,
}

/// A condition code for conditional jumps, sets and moves.
#[derive(Clone, Copy, PartialEq, Eq, Structural, Debug)]
pub enum CC {
    O,
    NO,
    B,
    NB,
    Z,
    NZ,
    BE,
    NBE,
    S,
    NS,
    P,
    NP,
    L,
    NL,
    LE,
    NLE,
}

impl CC {
    /// The logically opposite condition.
    pub open spec fn spec_invert(self) -> CC {
        match self {
            CC::O => CC::NO,
            CC::NO => CC::O,
            CC::B => CC::NB,
            CC::NB => CC::B,
            CC::Z => CC::NZ,
            CC::NZ => CC::Z,
            CC::BE => CC::NBE,
            CC::NBE => CC::BE,
            CC::S => CC::NS,
            CC::NS => CC::S,
            CC::P => CC::NP,
            CC::NP => CC::P,
            CC::L => CC::NL,
            CC::NL => CC::L,
            CC::LE => CC::NLE,
            CC::NLE => CC::LE,
        }
    }

    /// The logically opposite condition.
    #[verifier::when_used_as_spec(spec_invert)]
    pub fn invert(self) -> (r: CC)
        ensures
            r == self.spec_invert(),
    {
        match self {
            CC::O => CC::NO,
            CC::NO => CC::O,
            CC::B => CC::NB,
            CC::NB => CC::B,
            CC::Z => CC::NZ,
            CC::NZ => CC::Z,
            CC::BE => CC::NBE,
            CC::NBE => CC::BE,
            CC::S => CC::NS,
            CC::NS => CC::S,
            CC::P => CC::NP,
            CC::NP => CC::P,
            CC::L => CC::NL,
            CC::NL => CC::L,
            CC::LE => CC::NLE,
            CC::NLE => CC::LE,
        }
    }
}

/// Inverting a condition twice gives the condition back.
pub proof fn lemma_invert_involutive(cc: CC)
    ensures
        cc.spec_invert().spec_invert() == cc,
{
}

/// A two-operand arithmetic or logical opcode.
#[derive(Clone, Copy, PartialEq, Eq, Structural, Debug)]
pub enum Binop {
    Add,
    Sub,
    And,
    Or,
    Xor,
}

/// A one-operand opcode.
#[derive(Clone, Copy, PartialEq, Eq, Structural, Debug)]
pub enum Unop {
    Inc,
    Dec,
    Not,
    Neg,
}

/// A shift or rotate opcode.
#[derive(Clone, Copy, PartialEq, Eq, Structural, Debug)]
pub enum ShiftKind {
    Shl,
    ShrL,
    ShrA,
    Rol,
    Ror,
}

/// A comparison opcode: arithmetic compare or bit test.
#[derive(Clone, Copy, PartialEq, Eq, Structural, Debug)]
pub enum CmpKind {
    Cmp,
    Test,
}

/// A zero- or sign-extension mode: source and destination widths.
#[derive(Clone, Copy, PartialEq, Eq, Structural, Debug)]
pub enum ExtMode {
    BL,
    BQ,
    WL,
    WQ,
    LQ,
}

/// Whether physical register number `n` is callee-saved: the callee must
/// restore it before returning. The stack pointer is in neither partition.
pub open spec fn spec_is_callee_saved(n: u8) -> bool {
    n == 3 || n == 5 || n == 12 || n == 13 || n == 14 || n == 15
}

/// The callee-saved registers, in the fixed order the prologue saves them.
pub fn callee_saved() -> (v: Vec<PReg>)
    ensures
        v@.map_values(|r: PReg| r.0) =~= seq![3u8, 5, 12, 13, 14, 15],
        forall|i: int| 0 <= i < v@.len() ==> (#[trigger] v@[i]).0 < NUM_REGS,
        forall|i: int| 0 <= i < v@.len() ==> spec_is_callee_saved(v@[i].0),
{
    let v = vec![PReg(3), PReg(5), PReg(12), PReg(13), PReg(14), PReg(15)];
    assert(v@.map_values(|r: PReg| r.0) =~= seq![3u8, 5, 12, 13, 14, 15]);
    v
}

/// The caller-saved registers other than the stack pointer, in a fixed order.
pub fn non_callee_saved() -> (v: Vec<PReg>)
    ensures
        v@.map_values(|r: PReg| r.0) =~= seq![0u8, 1, 2, 6, 7, 8, 9, 10, 11],
        forall|i: int| 0 <= i < v@.len() ==> (#[trigger] v@[i]).0 < NUM_REGS,
        forall|i: int| 0 <= i < v@.len() ==> !spec_is_callee_saved(v@[i].0),
{
    let v = vec![
        PReg(0),
        PReg(1),
        PReg(2),
        PReg(6),
        PReg(7),
        PReg(8),
        PReg(9),
        PReg(10),
        PReg(11),
    ];
    assert(v@.map_values(|r: PReg| r.0) =~= seq![0u8, 1, 2, 6, 7, 8, 9, 10, 11]);
    v
}

} // verus!
