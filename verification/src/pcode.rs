//! The finished artifact: a flat physical instruction array with a block
//! table, a block-address table, the total byte length, the stack-frame
//! size and the saved-register list — plus the byte-layout arithmetic that
//! ties addresses to instruction lengths.

use vstd::prelude::*;
use crate::pinst::{PInst, PRegMem};
use crate::types::PReg;

verus! {

/// The total encoded length of the first `n` instructions, with each jump
/// counted at the length its flag currently selects.
pub open spec fn sum_len(s: Seq<PInst>, n: int) -> int
    decreases n,
{
    if n <= 0 {
        0
    } else {
        sum_len(s, n - 1) + s[n - 1].spec_len()
    }
}

/// The total provisional length of the first `n` instructions, with every
/// jump counted long: the accounting the build phase uses before
/// shortening decisions are final.
pub open spec fn sum_max_len(s: Seq<PInst>, n: int) -> int
    decreases n,
{
    if n <= 0 {
        0
    } else {
        sum_max_len(s, n - 1) + s[n - 1].spec_max_len()
    }
}

/// Sequences that agree on a prefix have the same prefix sums.
pub proof fn lemma_sum_prefix_agree(s1: Seq<PInst>, s2: Seq<PInst>, n: int)
    requires
        0 <= n <= s1.len(),
        n <= s2.len(),
        forall|i: int| 0 <= i < n ==> s1[i] == s2[i],
    ensures
        sum_len(s1, n) == sum_len(s2, n),
        sum_max_len(s1, n) == sum_max_len(s2, n),
    decreases n,
{
    if n > 0 {
        lemma_sum_prefix_agree(s1, s2, n - 1);
    }
}

/// Sequences whose instructions have the same long forms — as before and
/// after shortening — have the same provisional sums.
pub proof fn lemma_sum_max_agree(s1: Seq<PInst>, s2: Seq<PInst>, n: int)
    requires
        0 <= n <= s1.len(),
        n <= s2.len(),
        forall|i: int| 0 <= i < n ==> s1[i].spec_max_len() == s2[i].spec_max_len(),
    ensures
        sum_max_len(s1, n) == sum_max_len(s2, n),
    decreases n,
{
    if n > 0 {
        lemma_sum_max_agree(s1, s2, n - 1);
    }
}

/// A run of instructions takes between zero bytes and its provisional
/// length, which is at most eight bytes per instruction. In particular,
/// shortening can only shrink the distance between two addresses.
pub proof fn lemma_sum_range(s: Seq<PInst>, a: int, b: int)
    requires
        0 <= a <= b <= s.len(),
    ensures
        0 <= sum_len(s, b) - sum_len(s, a),
        sum_len(s, b) - sum_len(s, a) <= sum_max_len(s, b) - sum_max_len(s, a),
        sum_max_len(s, b) - sum_max_len(s, a) <= 8 * (b - a),
    decreases b,
{
    if b > a {
        lemma_sum_range(s, a, b - 1);
        s[b - 1].lemma_len_bounds();
    }
}

/// Whether `blocks` is a well-formed block table for `ninsts` instructions:
/// at least one block, and the half-open instruction ranges tile the
/// instruction list from its start to its end.
pub open spec fn blocks_contiguous(blocks: Seq<(usize, usize)>, ninsts: int) -> bool {
    &&& blocks.len() >= 1
    &&& blocks[0].0 == 0
    &&& forall|k: int| 0 <= k < blocks.len() ==> (#[trigger] blocks[k]).0 <= blocks[k].1
    &&& forall|k: int| 0 < k < blocks.len() ==> (#[trigger] blocks[k]).0 == blocks[k - 1].1
    &&& blocks[blocks.len() - 1].1 == ninsts
}

/// In a contiguous block table every block's range lies inside the
/// instruction list.
pub proof fn lemma_block_bounds(blocks: Seq<(usize, usize)>, ninsts: int, b: int)
    requires
        blocks_contiguous(blocks, ninsts),
        0 <= b < blocks.len(),
    ensures
        blocks[b].0 <= blocks[b].1 <= ninsts,
    decreases blocks.len() - b,
{
    if b < blocks.len() - 1 {
        lemma_block_bounds(blocks, ninsts, b + 1);
    }
}

/// The jump target of instruction `j`, meaningful when it is a jump.
pub open spec fn jump_dst(i: PInst) -> int {
    match i {
        PInst::JmpKnown { dst, .. } => dst as int,
        PInst::JmpCond { dst, .. } => dst as int,
        _ => 0,
    }
}

/// Whether the short-encoded jump at `j` reaches its target: the signed
/// displacement from the jump's end to the target block's address, measured
/// with final lengths, fits a signed byte.
pub open spec fn short_jump_fits(
    insts: Seq<PInst>,
    blocks: Seq<(usize, usize)>,
    j: int,
) -> bool {
    let dst = jump_dst(insts[j]);
    &&& 0 <= dst < blocks.len()
    &&& -127 <= sum_len(insts, blocks[dst].0 as int) - sum_len(insts, j + 1) <= 127
}

/// A physical-code program: the pass's finished artifact for one procedure.
#[derive(Clone, Debug)]
pub struct PCode {
    /// The instructions, in address order, emitted as one dense run.
    pub insts: Vec<PInst>,
    /// Half-open instruction ranges, one per block, in layout order.
    pub blocks: Vec<(usize, usize)>,
    /// Each block's byte address: the total length of all instructions
    /// before its first.
    pub block_addr: Vec<usize>,
    /// Per block, where each of its parameters lives, for inspection.
    pub block_params: Vec<Vec<(u32, PRegMem)>>,
    /// The stack-frame size in bytes, excluding the return address.
    pub stack_size: usize,
    /// The callee-saved registers the prologue saves, in save order.
    pub saved_regs: Vec<PReg>,
    /// The total byte length of the procedure.
    pub len: usize,
}

impl PCode {
    /// The address and length tables agree with the instruction list: each
    /// block's address is the summed length of every instruction strictly
    /// before it, and the total length is the sum over all instructions.
    pub open spec fn addrs_consistent(self) -> bool {
        &&& self.block_addr@.len() == self.blocks@.len()
        &&& forall|b: int|
            0 <= b < self.blocks@.len()
                ==> #[trigger] self.block_addr@[b] as int
                    == sum_len(self.insts@, self.blocks@[b].0 as int)
        &&& self.len as int == sum_len(self.insts@, self.insts@.len() as int)
    }

    /// Every jump names an existing block, and every jump encoded short
    /// reaches its target within a signed byte displacement.
    pub open spec fn jumps_sound(self) -> bool {
        &&& forall|j: int|
            0 <= j < self.insts@.len() && (#[trigger] self.insts@[j]).spec_is_jump() is Some
                ==> 0 <= jump_dst(self.insts@[j]) < self.blocks@.len()
        &&& forall|j: int|
            0 <= j < self.insts@.len() && (#[trigger] self.insts@[j]).spec_is_short()
                ==> short_jump_fits(self.insts@, self.blocks@, j)
    }

    /// Overall well-formedness of the artifact.
    pub open spec fn wf(self) -> bool {
        &&& blocks_contiguous(self.blocks@, self.insts@.len() as int)
        &&& self.block_params@.len() == self.blocks@.len()
        &&& self.addrs_consistent()
        &&& self.jumps_sound()
    }

    /// A textual dump of the program, for diagnostics and inspection.
    /// Relies on std's formatter through the derived `Debug`
    /// implementation.
    #[verifier::external_body]
    pub fn dump(&self) -> String {
        format!("{:#?}", self)
    }

    /// The instructions belonging to block `b`.
    pub fn block_insts(&self, b: usize) -> (v: Vec<PInst>)
        requires
            b < self.blocks@.len(),
            self.blocks@[b as int].0 <= self.blocks@[b as int].1 <= self.insts@.len(),
        ensures
            v@ == self.insts@.subrange(
                self.blocks@[b as int].0 as int,
                self.blocks@[b as int].1 as int,
            ),
    {
        let (start, end) = self.blocks[b];
        let mut v: Vec<PInst> = Vec::new();
        let mut k = start;
        while k < end
            invariant
                start <= k <= end <= self.insts@.len(),
                v@ == self.insts@.subrange(start as int, k as int),
            decreases end - k,
        {
            v.push(self.insts[k]);
            proof {
                assert(v@ =~= self.insts@.subrange(start as int, k + 1));
            }
            k = k + 1;
        }
        v
    }
}

/// Rebuilds the block-address table and the total length from scratch by
/// one pass over the instruction list. This is the finish-phase
/// recomputation: it depends only on the instructions and the block table,
/// so running it on an already-consistent program changes nothing (see
/// `lemma_recompute_idempotent`).
/// Adds the encoded lengths of instructions `from..to` to a running total
/// that already equals the total length of the first `from`.
fn add_lens(insts: &Vec<PInst>, from: usize, to: usize, total: usize) -> (r: usize)
    requires
        from <= to <= insts@.len(),
        insts@.len() <= 0x0400_0000,
        total as int == sum_len(insts@, from as int),
    ensures
        r as int == sum_len(insts@, to as int),
{
    let mut k = from;
    let mut total = total;
    while k < to
        invariant
            from <= k <= to <= insts@.len(),
            insts@.len() <= 0x0400_0000,
            total as int == sum_len(insts@, k as int),
        decreases to - k,
    {
        proof {
            lemma_sum_range(insts@, 0, k + 1);
            insts@[k as int].lemma_len_bounds();
        }
        total = total + insts[k].len();
        k = k + 1;
    }
    total
}

pub fn recompute_layout(code: &mut PCode)
    requires
        blocks_contiguous(old(code).blocks@, old(code).insts@.len() as int),
        old(code).insts@.len() <= 0x0400_0000,
    ensures
        final(code).insts@ == old(code).insts@,
        final(code).blocks@ == old(code).blocks@,
        final(code).block_params@ == old(code).block_params@,
        final(code).stack_size == old(code).stack_size,
        final(code).saved_regs@ == old(code).saved_regs@,
        final(code).addrs_consistent(),
{
    let ghost insts = code.insts@;
    let ghost blocks = code.blocks@;
    let nblocks = code.blocks.len();
    let ninsts = code.insts.len();
    let mut addr: Vec<usize> = Vec::new();
    let mut total: usize = 0;
    let mut k: usize = 0;
    let mut b: usize = 0;
    while b < nblocks
        invariant
            code.insts@ == insts,
            code.blocks@ == blocks,
            blocks_contiguous(blocks, ninsts as int),
            ninsts == insts.len(),
            nblocks == blocks.len(),
            ninsts <= 0x0400_0000,
            b <= nblocks,
            b == 0 ==> k == 0,
            b > 0 ==> k == blocks[b - 1].0,
            k <= ninsts,
            total as int == sum_len(insts, k as int),
            addr@.len() == b,
            forall|c: int|
                0 <= c < b ==> #[trigger] addr@[c] as int == sum_len(insts, blocks[c].0 as int),
        decreases nblocks - b,
    {
        let target = code.blocks[b].0;
        proof {
            lemma_block_bounds(blocks, ninsts as int, b as int);
            if b > 0 {
                lemma_block_bounds(blocks, ninsts as int, b - 1);
            }
        }
        assert(k <= target <= ninsts);
        total = add_lens(&code.insts, k, target, total);
        k = target;
        addr.push(total);
        b = b + 1;
    }
    total = add_lens(&code.insts, k, ninsts, total);
    code.block_addr = addr;
    code.len = total;
}

/// The finished program's total byte length equals the sum of its
/// instructions' encoded lengths.
pub proof fn lemma_total_length_is_sum(pc: PCode)
    requires
        pc.addrs_consistent(),
    ensures
        pc.len as int == sum_len(pc.insts@, pc.insts@.len() as int),
{
}

/// Each block's byte address equals the summed length of every instruction
/// strictly before the block's first.
pub proof fn lemma_block_address_is_prefix_sum(pc: PCode, b: int)
    requires
        pc.addrs_consistent(),
        0 <= b < pc.blocks@.len(),
    ensures
        pc.block_addr@[b] as int == sum_len(pc.insts@, pc.blocks@[b].0 as int),
{
}

/// Jump-encoding soundness: in a well-formed program, every jump flagged
/// short reaches its target within a signed-byte displacement.
pub proof fn lemma_short_jumps_reach(pc: PCode, j: int)
    requires
        pc.wf(),
        0 <= j < pc.insts@.len(),
        pc.insts@[j].spec_is_short(),
    ensures
        short_jump_fits(pc.insts@, pc.blocks@, j),
{
}

/// Idempotence of the finish-phase recomputation: on a program whose
/// address table and total length are already consistent with its
/// instructions, recomputation reproduces exactly the addresses and length
/// it already has.
pub proof fn lemma_recompute_idempotent(before: PCode, after: PCode)
    requires
        before.addrs_consistent(),
        after.insts@ == before.insts@,
        after.blocks@ == before.blocks@,
        after.addrs_consistent(),
    ensures
        after.block_addr@ == before.block_addr@,
        after.len == before.len,
{
    assert forall|b: int| 0 <= b < before.block_addr@.len()
        implies before.block_addr@[b] == after.block_addr@[b] by {
        assert(before.block_addr@[b] as int == sum_len(before.insts@, before.blocks@[b].0 as int));
        assert(after.block_addr@[b] as int == sum_len(after.insts@, after.blocks@[b].0 as int));
    }
    assert(after.block_addr@ =~= before.block_addr@);
}

} // verus!
