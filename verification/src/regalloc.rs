//! The pass itself: applies the solver's result to the virtual program,
//! laying out the stack frame, walking the instruction stream with the
//! allocation cursor, splicing in edits, and producing the finished
//! physical program.

use vstd::prelude::*;
use crate::builder::{edits_insts, epilogue_insts, prologue_insts, BlockBuilder, PCodeBuilder};
use crate::clobbers::{get_clobbers, is_clobbered};
use crate::cursor::{conv_offset, ApplyRegalloc};
use crate::pcode::{blocks_contiguous, sum_max_len, PCode};
use crate::pinst::{PAMode, PInst, POffset, PRegMem, PRegMemImm, PShiftIndex};
use crate::solver::{Alloc, AllocResult, Edit, PassError, ProgPoint};
use crate::types::{callee_saved, non_callee_saved, spec_rsp, PReg, PRegSet};
use crate::vcode::{
    amode_consumes, consumed_before, rm_consumes, rmi_consumes, wf_vcode, AMode, ArgAbi, Inst,
    Offset, ProcAbi, RegMem, RegMemImm, VCode,
};

verus! {

/// The summed sizes of the declared spill regions from index `k` to the
/// end.
pub open spec fn tail_size(spills: Seq<usize>, k: int) -> int
    decreases spills.len() - k,
{
    if k < 0 || k >= spills.len() {
        0
    } else {
        spills[k] + tail_size(spills, k + 1)
    }
}

/// Each region's size is capped, so a tail of the region list is bounded
/// by its length.
pub proof fn lemma_tail_size_bounds(spills: Seq<usize>, k: int)
    requires
        0 <= k <= spills.len(),
        forall|j: int| 0 <= j < spills.len() ==> #[trigger] spills[j] <= 0xFFFF,
    ensures
        0 <= tail_size(spills, k) <= 0xFFFF * (spills.len() - k),
        k >= spills.len() ==> tail_size(spills, k) == 0,
    decreases spills.len() - k,
{
    if k < spills.len() {
        lemma_tail_size_bounds(spills, k + 1);
    }
}

/// The byte offset where the declared spill regions start: the
/// outgoing-argument area sits at the stack pointer, the solver's requested
/// spill slots directly above it.
pub open spec fn spec_frame_base(spills: Seq<usize>, nslots: int) -> int {
    spills[1] + 8 * nslots
}

/// The frame size, excluding the return address: the outgoing area, the
/// solver's slots, every declared region past the first two, and eight
/// bytes per saved callee-saved register.
pub open spec fn spec_stack_size(spills: Seq<usize>, nslots: int, nsaved: int) -> int {
    spec_frame_base(spills, nslots) + tail_size(spills, 2) + 8 * nsaved
}

/// Computes the frame layout: the byte offset of every declared spill
/// region and the final stack size. Regions past the first two are laid
/// out from the top of the solver's spill area upward, walking the
/// declarations in reverse so the outgoing-argument area stays adjacent to
/// the stack pointer. The incoming-argument area (region 0) is pinned just
/// above the return address, and the outgoing area (region 1) at offset
/// zero.
pub fn build_spill_map(spills: &Vec<usize>, num_spillslots: usize, nsaved: usize) -> (r: (
    Vec<usize>,
    usize,
))
    requires
        2 <= spills@.len() <= 0x100,
        forall|j: int| 0 <= j < spills@.len() ==> #[trigger] spills@[j] <= 0xFFFF,
        num_spillslots <= 0xFFFF,
        nsaved <= 16,
    ensures
        r.0@.len() == spills@.len(),
        r.1 as int == spec_stack_size(spills@, num_spillslots as int, nsaved as int),
        r.1 <= 0x0200_0000,
        r.0@[0] as int == r.1 + 8,
        r.0@[1] == 0,
        forall|k: int|
            2 <= k < spills@.len()
                ==> #[trigger] r.0@[k] as int == spec_frame_base(
                    spills@,
                    num_spillslots as int,
                ) + tail_size(spills@, k + 1),
        forall|k: int| 0 <= k < spills@.len() ==> #[trigger] r.0@[k] <= 0x0200_0000 + 8,
        r.0@ =~= spec_spill_map(spills@, num_spillslots as int, nsaved as int),
{
    let len = spills.len();
    let mut map: Vec<usize> = Vec::new();
    let mut z: usize = 0;
    while z < len
        invariant
            z <= len,
            map@.len() == z,
            forall|k: int| 0 <= k < z ==> #[trigger] map@[k] == 0,
        decreases len - z,
    {
        map.push(0);
        z = z + 1;
    }
    proof {
        lemma_tail_size_bounds(spills@, 2);
        lemma_tail_size_bounds(spills@, len as int);
    }
    let base = spills[1] + 8 * num_spillslots;
    let mut rsp_off = base;
    let mut k = len;
    while k > 2
        invariant
            2 <= k <= len == spills@.len() <= 0x100,
            forall|j: int| 0 <= j < spills@.len() ==> #[trigger] spills@[j] <= 0xFFFF,
            num_spillslots <= 0xFFFF,
            base == spills@[1] + 8 * num_spillslots,
            map@.len() == len,
            rsp_off as int == base + tail_size(spills@, k as int),
            rsp_off <= 0x0200_0000,
            forall|j: int| 0 <= j < k ==> #[trigger] map@[j] == 0,
            forall|j: int|
                k <= j < len
                    ==> #[trigger] map@[j] as int == base as int + tail_size(spills@, j + 1),
            forall|j: int| 0 <= j < len ==> #[trigger] map@[j] <= 0x0200_0000,
        decreases k,
    {
        k = k - 1;
        map.set(k, rsp_off);
        proof {
            lemma_tail_size_bounds(spills@, k as int);
            lemma_tail_size_bounds(spills@, k as int + 1);
        }
        rsp_off = rsp_off + spills[k];
    }
    let stack_size = rsp_off + 8 * nsaved;
    map.set(0, stack_size + 8);
    map.set(1, 0);
    proof {
        let smap = spec_spill_map(spills@, num_spillslots as int, nsaved as int);
        assert forall|j: int| 0 <= j < spills@.len() implies map@[j] == smap[j] by {
            if j >= 2 {
                lemma_tail_size_bounds(spills@, j + 1);
            }
        }
        assert(map@ =~= smap);
    }
    (map, stack_size)
}

/// The callee-saved registers that the clobber analysis selects for
/// saving, in the fixed save order.
pub open spec fn filter_clobbered(regs: Seq<PReg>, v: VCode, o: AllocResult) -> Seq<PReg>
    decreases regs.len(),
{
    if regs.len() == 0 {
        Seq::<PReg>::empty()
    } else {
        (if is_clobbered(v, o, regs[0]) {
            seq![regs[0]]
        } else {
            Seq::<PReg>::empty()
        }) + filter_clobbered(regs.drop_first(), v, o)
    }
}

/// Filtering a list extended by one element appends that element's
/// contribution.
#[verifier::spinoff_prover]
pub proof fn lemma_filter_snoc(regs: Seq<PReg>, x: PReg, v: VCode, o: AllocResult)
    ensures
        filter_clobbered(regs.push(x), v, o) =~= filter_clobbered(regs, v, o) + (
        if is_clobbered(v, o, x) {
            seq![x]
        } else {
            Seq::<PReg>::empty()
        }),
    decreases regs.len(),
{
    if regs.len() == 0 {
        assert(regs.push(x).drop_first() =~= Seq::<PReg>::empty());
        assert(regs.push(x)[0] == x);
        assert(filter_clobbered(regs.push(x), v, o) == (if is_clobbered(v, o, x) {
            seq![x]
        } else {
            Seq::<PReg>::empty()
        }) + filter_clobbered(regs.push(x).drop_first(), v, o));
        assert(filter_clobbered(regs.push(x).drop_first(), v, o)
            == filter_clobbered(Seq::<PReg>::empty(), v, o));
        assert(filter_clobbered(Seq::<PReg>::empty(), v, o) == Seq::<PReg>::empty());
        assert(filter_clobbered(regs, v, o) == Seq::<PReg>::empty());
    } else {
        assert(regs.push(x).drop_first() =~= regs.drop_first().push(x));
        lemma_filter_snoc(regs.drop_first(), x, v, o);
        assert(regs.push(x)[0] == regs[0]);
        assert(filter_clobbered(regs.push(x), v, o) == (if is_clobbered(v, o, regs[0]) {
            seq![regs[0]]
        } else {
            Seq::<PReg>::empty()
        }) + filter_clobbered(regs.push(x).drop_first(), v, o));
        assert(filter_clobbered(regs.push(x).drop_first(), v, o)
            == filter_clobbered(regs.drop_first().push(x), v, o));
        assert(filter_clobbered(regs, v, o) == (if is_clobbered(v, o, regs[0]) {
            seq![regs[0]]
        } else {
            Seq::<PReg>::empty()
        }) + filter_clobbered(regs.drop_first(), v, o));
    }
}

/// Selects, from a fixed register list, those the procedure clobbers.
fn select_clobbered(regs: &Vec<PReg>, clobbers: PRegSet, vcode: &VCode, out: &AllocResult) -> (r:
    Vec<PReg>)
    requires
        forall|q: PReg| clobbers.spec_has(q) <==> is_clobbered(*vcode, *out, q),
    ensures
        r@ =~= filter_clobbered(regs@, *vcode, *out),
        r@.len() <= regs@.len(),
{
    let mut r: Vec<PReg> = Vec::new();
    let mut k: usize = 0;
    while k < regs.len()
        invariant
            k <= regs@.len(),
            forall|q: PReg| clobbers.spec_has(q) <==> is_clobbered(*vcode, *out, q),
            r@ =~= filter_clobbered(regs@.subrange(0, k as int), *vcode, *out),
            r@.len() <= k,
        decreases regs@.len() - k,
    {
        let reg = regs[k];
        if clobbers.get(reg) {
            r.push(reg);
        }
        proof {
            assert(regs@.subrange(0, k as int + 1) =~= regs@.subrange(0, k as int).push(
                regs@[k as int],
            ));
            lemma_filter_snoc(regs@.subrange(0, k as int), regs@[k as int], *vcode, *out);
        }
        k = k + 1;
    }
    proof {
        assert(regs@.subrange(0, regs@.len() as int) =~= regs@);
    }
    r
}

/// Copies an argument-location list.
fn copy_args(args: &Vec<ArgAbi>) -> (r: Vec<ArgAbi>)
    ensures
        r@ =~= args@,
{
    let mut r: Vec<ArgAbi> = Vec::new();
    let mut k: usize = 0;
    while k < args.len()
        invariant
            k <= args@.len(),
            r@ =~= args@.subrange(0, k as int),
        decreases args@.len() - k,
    {
        r.push(args[k]);
        proof {
            assert(r@ =~= args@.subrange(0, k as int + 1));
        }
        k = k + 1;
    }
    r
}

/// Whether two optional return-location lists hold the same locations.
pub open spec fn rets_eq(a: Option<Vec<ArgAbi>>, b: Option<Vec<ArgAbi>>) -> bool {
    match (a, b) {
        (Option::None, Option::None) => true,
        (Option::Some(x), Option::Some(y)) => x@ =~= y@,
        _ => false,
    }
}

/// The callee-saved registers, in save order, as a specification value.
pub open spec fn callee_saved_list() -> Seq<PReg> {
    seq![PReg(3), PReg(5), PReg(12), PReg(13), PReg(14), PReg(15)]
}

/// The caller-saved registers other than the stack pointer.
pub open spec fn caller_saved_list() -> Seq<PReg> {
    seq![PReg(0), PReg(1), PReg(2), PReg(6), PReg(7), PReg(8), PReg(9), PReg(10), PReg(11)]
}

/// In a table of non-empty contiguous blocks, only the last block ends at
/// the end of the instruction list.
proof fn lemma_only_last_block_ends(blocks: Seq<(usize, usize)>, n: int, c: int)
    requires
        blocks_contiguous(blocks, n),
        forall|k: int| 0 <= k < blocks.len() ==> (#[trigger] blocks[k]).0 < blocks[k].1,
        0 <= c < blocks.len(),
        blocks[c].1 == n,
    ensures
        c == blocks.len() - 1,
{
    if c < blocks.len() - 1 {
        crate::pcode::lemma_block_bounds(blocks, n, c + 1);
        assert(blocks[c + 1].0 == blocks[c].1);
        assert(blocks[c + 1].0 < blocks[c + 1].1);
    }
}

/// Certification extends by one instruction once lowering has checked
/// its boundary, its allocation window and its structural promises.
proof fn lemma_certified_extend(v: VCode, o: AllocResult, n: int)
    requires
        0 <= n < v.insts@.len(),
        crate::solver::certified_upto(v, o, n),
        o.inst_alloc_offsets@[n] as int == crate::vcode::consumed_before(v.insts@, n),
        crate::solver::inst_allocs_ok(
            v.insts@[n],
            o.allocs@,
            crate::vcode::consumed_before(v.insts@, n),
        ),
        crate::solver::struct_ok_inst(v, n),
    ensures
        crate::solver::certified_upto(v, o, n + 1),
{
    assert forall|i: int| 0 <= i < n + 1 implies #[trigger] crate::solver::inst_checked(
        v,
        o,
        i,
    ) by {
        if i == n {
            assert(crate::solver::inst_checked(v, o, n));
        }
    }
}

/// Prefix sums are unchanged when the instruction list only grows: the
/// block addresses recorded so far stay tied to their blocks.
proof fn lemma_coupling_stable(
    olds: Seq<PInst>,
    news: Seq<PInst>,
    blocks: Seq<(usize, usize)>,
    addr: Seq<usize>,
    cur: int,
    start: int,
)
    requires
        olds.len() <= news.len(),
        forall|j: int| 0 <= j < olds.len() ==> news[j] == olds[j],
        0 <= cur,
        addr.len() == cur + 1,
        blocks.len() == cur,
        forall|k: int|
            0 <= k < blocks.len()
                ==> (#[trigger] blocks[k]).1 <= start && blocks[k].0 <= blocks[k].1,
        0 <= start <= olds.len(),
        forall|b: int|
            0 <= b < cur ==> #[trigger] addr[b] as int == sum_max_len(olds, blocks[b].0 as int),
        addr[cur] as int == sum_max_len(olds, start),
    ensures
        forall|b: int|
            0 <= b < cur ==> #[trigger] addr[b] as int == sum_max_len(news, blocks[b].0 as int),
        addr[cur] as int == sum_max_len(news, start),
{
    assert forall|b: int| 0 <= b < cur implies #[trigger] addr[b] as int == sum_max_len(
        news,
        blocks[b].0 as int,
    ) by {
        crate::pcode::lemma_sum_prefix_agree(news, olds, blocks[b].0 as int);
    }
    crate::pcode::lemma_sum_prefix_agree(news, olds, start);
}

/// The register an allocation resolved to; meaningful when the solver
/// produced a register there.
pub open spec fn resolve_reg(allocs: Seq<Alloc>, p: int) -> PReg {
    match allocs[p] {
        Alloc::Reg(r) => r,
        Alloc::Stack(_) => PReg(0),
    }
}

/// The physical addressing mode a virtual one resolves to: a
/// spill-relative displacement takes its frame offset from the slot map
/// `sm` with the stack pointer as base; otherwise a present base register
/// is read at position `p` and a present index register right after.
pub open spec fn resolve_amode(a: AMode, allocs: Seq<Alloc>, p: int, sm: Seq<usize>) -> PAMode {
    PAMode {
        off: match a.off {
            Offset::Spill(sp, extra) => POffset::Real(((sm[sp as int] + extra) as usize)),
            _ => conv_offset(a.off),
        },
        base: match a.off {
            Offset::Spill(_, _) => Some(spec_rsp()),
            _ => match a.base {
                Some(_) => Some(resolve_reg(allocs, p)),
                None => None,
            },
        },
        si: match a.si {
            Some(si) => Some(
                PShiftIndex {
                    index: resolve_reg(allocs, p + (if a.base is Some {
                        1int
                    } else {
                        0
                    })),
                    shift: si.shift,
                },
            ),
            None => None,
        },
    }
}

/// The physical operand a register-or-memory operand resolves to.
pub open spec fn resolve_rm(rm: RegMem, allocs: Seq<Alloc>, p: int, sm: Seq<usize>) -> PRegMem {
    match rm {
        RegMem::Reg(_) => PRegMem::Reg(resolve_reg(allocs, p)),
        RegMem::Mem(a) => PRegMem::Mem(resolve_amode(a, allocs, p, sm)),
    }
}

/// The physical operand a register/memory/immediate operand resolves to.
pub open spec fn resolve_rmi(
    rmi: RegMemImm,
    allocs: Seq<Alloc>,
    p: int,
    sm: Seq<usize>,
) -> PRegMemImm {
    match rmi {
        RegMemImm::Reg(_) => PRegMemImm::Reg(resolve_reg(allocs, p)),
        RegMemImm::Mem(a) => PRegMemImm::Mem(resolve_amode(a, allocs, p, sm)),
        RegMemImm::Imm(i) => PRegMemImm::Imm(i),
    }
}

/// Whether `a` is `b` as pushed, or `b` with its jump flag already set
/// short: the build phase may shorten a backward jump the moment it is
/// appended.
pub open spec fn eq_mod_short(a: PInst, b: PInst) -> bool {
    a == b || a == b.spec_shorten()
}

/// What the cursor resolved is exactly what the resolver function says.
proof fn lemma_resolve_amode(a: AMode, allocs: Seq<Alloc>, p: int, sm: Seq<usize>, m: PAMode)
    requires
        crate::cursor::amode_resolves_to(a, allocs, p, sm, m),
        a.off matches Offset::Spill(sp, extra) ==> a.base is None && sp < sm.len()
            && sm[sp as int] + extra <= 0x7FFF_FFFF,
    ensures
        m == resolve_amode(a, allocs, p, sm),
{
}

proof fn lemma_resolve_rm(rm: RegMem, allocs: Seq<Alloc>, p: int, sm: Seq<usize>, m: PRegMem)
    requires
        crate::cursor::rm_resolves_to(rm, allocs, p, sm, m),
        crate::cursor::rm_in_range(rm, sm),
    ensures
        m == resolve_rm(rm, allocs, p, sm),
{
    match rm {
        RegMem::Reg(_) => {},
        RegMem::Mem(a) => {
            let pm = m->Mem_0;
            lemma_resolve_amode(a, allocs, p, sm, pm);
        },
    }
}

proof fn lemma_resolve_rmi(
    rmi: RegMemImm,
    allocs: Seq<Alloc>,
    p: int,
    sm: Seq<usize>,
    m: PRegMemImm,
)
    requires
        crate::cursor::rmi_resolves_to(rmi, allocs, p, sm, m),
        crate::cursor::rmi_in_range(rmi, sm),
    ensures
        m == resolve_rmi(rmi, allocs, p, sm),
{
    match rmi {
        RegMemImm::Reg(_) => {},
        RegMemImm::Mem(a) => {
            let pm = m->Mem_0;
            lemma_resolve_amode(a, allocs, p, sm, pm);
        },
        RegMemImm::Imm(_) => {},
    }
}

/// The first edit position at or past `e` that is not anchored at `pt`:
/// where the run of edits spliced in at `pt` ends.
pub open spec fn run_end(edits: Seq<(ProgPoint, Edit)>, e: int, pt: ProgPoint) -> int
    decreases edits.len() - e,
{
    if 0 <= e < edits.len() && edits[e].0 == pt {
        run_end(edits, e + 1, pt)
    } else {
        e
    }
}

/// A maximal run of edits anchored at `pt` ends exactly at `run_end`.
proof fn lemma_run_end_is(edits: Seq<(ProgPoint, Edit)>, e: int, pt: ProgPoint, f: int)
    requires
        0 <= e <= f <= edits.len(),
        forall|k: int| e <= k < f ==> (#[trigger] edits[k]).0 == pt,
        f < edits.len() ==> edits[f].0 != pt,
    ensures
        run_end(edits, e, pt) == f,
    decreases f - e,
{
    if e < f {
        lemma_run_end_is(edits, e + 1, pt, f);
    }
}

/// The edit position after the edits around the first `i` instructions
/// have been applied: the before- and after-runs of each instruction, in
/// program order.
pub open spec fn epos_at(edits: Seq<(ProgPoint, Edit)>, i: int) -> int
    decreases i,
{
    if i <= 0 {
        0
    } else {
        run_end(
            edits,
            run_end(edits, epos_at(edits, i - 1), ProgPoint::spec_before((i - 1) as usize)),
            ProgPoint::spec_after((i - 1) as usize),
        )
    }
}

/// The frame layout as a function of the inputs: region 0 pinned just
/// above the return address, region 1 (the outgoing-argument area) at the
/// stack pointer, and each later declared region laid out downward from
/// the top of the solver's spill area in reverse declaration order.
pub open spec fn spec_spill_map(spills: Seq<usize>, nslots: int, nsaved: int) -> Seq<usize> {
    Seq::new(
        spills.len(),
        |k: int|
            if k == 0 {
                ((spec_stack_size(spills, nslots, nsaved) + 8) as usize)
            } else if k == 1 {
                0usize
            } else {
                ((spec_frame_base(spills, nslots) + tail_size(spills, k + 1)) as usize)
            },
    )
}

/// The canonical emitted stream for the first `n` instructions, with
/// every jump counted in its long form: the prologue, then, per
/// instruction, the edits anchored just before it, its lowered
/// instructions per the lowering table, and the edits anchored just after
/// it. On success the pass returns exactly this stream, except that a
/// jump whose displacement fits a signed byte may carry the short flag
/// (`seq_eq_mod_short`).
pub open spec fn stream_upto(v: VCode, o: AllocResult, n: int) -> Seq<PInst>
    decreases n,
{
    let saved = filter_clobbered(callee_saved_list(), v, o);
    let ssz = (spec_stack_size(v.spills@, o.num_spillslots as int, saved.len() as int) as usize);
    let sm = spec_spill_map(v.spills@, o.num_spillslots as int, saved.len() as int);
    if n <= 0 {
        prologue_insts(saved, ssz)
    } else {
        let e0 = epos_at(o.edits@, n - 1);
        let e1 = run_end(o.edits@, e0, ProgPoint::spec_before((n - 1) as usize));
        let e2 = run_end(o.edits@, e1, ProgPoint::spec_after((n - 1) as usize));
        stream_upto(v, o, n - 1) + edits_insts(o.edits@, e0, e1, v.spills@[1]) + lowered_insts(
            v,
            n - 1,
            o.allocs@,
            consumed_before(v.insts@, n - 1),
            sm,
            saved,
            ssz,
        ) + edits_insts(o.edits@, e1, e2, v.spills@[1])
    }
}

/// Pointwise equality of instruction lists, up to each jump's shorten
/// flag.
pub open spec fn seq_eq_mod_short(a: Seq<PInst>, b: Seq<PInst>) -> bool {
    a.len() == b.len() && forall|j: int| 0 <= j < a.len() ==> eq_mod_short(#[trigger] a[j], b[j])
}

proof fn lemma_emod_refl(a: Seq<PInst>)
    ensures
        seq_eq_mod_short(a, a),
{
}

proof fn lemma_emod_concat(a: Seq<PInst>, b: Seq<PInst>, a2: Seq<PInst>, b2: Seq<PInst>)
    requires
        seq_eq_mod_short(a, a2),
        seq_eq_mod_short(b, b2),
    ensures
        seq_eq_mod_short(a + b, a2 + b2),
{
    assert forall|j: int| 0 <= j < (a + b).len() implies eq_mod_short(
        #[trigger] (a + b)[j],
        (a2 + b2)[j],
    ) by {
        if j < a.len() {
            assert((a + b)[j] == a[j]);
            assert((a2 + b2)[j] == a2[j]);
        } else {
            assert((a + b)[j] == b[j - a.len()]);
            assert((a2 + b2)[j] == b2[j - a.len()]);
        }
    }
}

/// Appending one element that matches up to shortening.
proof fn lemma_emod_snoc(pre: Seq<PInst>, x: PInst, c: PInst)
    requires
        eq_mod_short(x, c),
    ensures
        seq_eq_mod_short(pre.push(x), pre + seq![c]),
{
    assert forall|j: int| 0 <= j < pre.push(x).len() implies eq_mod_short(
        #[trigger] pre.push(x)[j],
        (pre + seq![c])[j],
    ) by {
        if j < pre.len() {
            assert(pre.push(x)[j] == pre[j]);
            assert((pre + seq![c])[j] == pre[j]);
        } else {
            assert(pre.push(x)[j] == x);
            assert((pre + seq![c])[j] == c);
        }
    }
}

/// Appending two elements that match up to shortening.
proof fn lemma_emod_snoc2(pre: Seq<PInst>, x1: PInst, x2: PInst, c1: PInst, c2: PInst)
    requires
        eq_mod_short(x1, c1),
        eq_mod_short(x2, c2),
    ensures
        seq_eq_mod_short(pre.push(x1).push(x2), pre + seq![c1, c2]),
{
    assert forall|j: int| 0 <= j < pre.push(x1).push(x2).len() implies eq_mod_short(
        #[trigger] pre.push(x1).push(x2)[j],
        (pre + seq![c1, c2])[j],
    ) by {
        if j < pre.len() {
            assert(pre.push(x1).push(x2)[j] == pre[j]);
            assert((pre + seq![c1, c2])[j] == pre[j]);
        } else if j == pre.len() {
            assert(pre.push(x1).push(x2)[j] == x1);
            assert((pre + seq![c1, c2])[j] == c1);
        } else {
            assert(pre.push(x1).push(x2)[j] == x2);
            assert((pre + seq![c1, c2])[j] == c2);
        }
    }
}

/// An unchanged list matches itself extended by nothing.
proof fn lemma_emod_empty(pre: Seq<PInst>)
    ensures
        seq_eq_mod_short(pre, pre + Seq::<PInst>::empty()),
{
    assert(pre + Seq::<PInst>::empty() =~= pre);
}

/// Matching up to shortening is transitive: shortening twice is the same
/// as shortening once.
proof fn lemma_emod_trans(a: Seq<PInst>, b: Seq<PInst>, c: Seq<PInst>)
    requires
        seq_eq_mod_short(a, b),
        seq_eq_mod_short(b, c),
    ensures
        seq_eq_mod_short(a, c),
{
    assert forall|j: int| 0 <= j < a.len() implies eq_mod_short(#[trigger] a[j], c[j]) by {
        assert(eq_mod_short(a[j], b[j]));
        assert(eq_mod_short(b[j], c[j]));
        c[j].lemma_shorten_facts();
    }
}

/// The canonical (all-jumps-long) instructions that lowering virtual
/// instruction `i` emits, resolving operands from position `p` of the
/// allocation list against the slot map `sm`: the lowering table of the
/// code builder, stated as a function of the inputs.
pub open spec fn lowered_insts(
    v: VCode,
    i: int,
    allocs: Seq<Alloc>,
    p: int,
    sm: Seq<usize>,
    saved: Seq<PReg>,
    stack_size: usize,
) -> Seq<PInst> {
    match v.insts@[i] {
        Inst::Fallthrough { dst } => seq![PInst::Fallthrough { dst }],
        Inst::BlockParam { .. } => Seq::<PInst>::empty(),
        Inst::Binop { op, sz, src2 } => seq![
            PInst::Binop {
                op,
                sz,
                dst: resolve_reg(allocs, p + 1 + rmi_consumes(src2)),
                src: resolve_rmi(src2, allocs, p + 1, sm),
            },
        ],
        Inst::Unop { op, sz } => seq![PInst::Unop { op, sz, dst: resolve_reg(allocs, p + 1) }],
        Inst::Mul { sz, src2 } => seq![
            PInst::Mul { sz, src: resolve_rm(src2, allocs, p + 1, sm) },
        ],
        Inst::Imm { sz, src } => seq![PInst::Imm { sz, dst: resolve_reg(allocs, p), src }],
        Inst::MovRR { .. } => Seq::<PInst>::empty(),
        Inst::MovPR { .. } => Seq::<PInst>::empty(),
        Inst::MovzxRmR { ext_mode, src } => seq![
            PInst::MovzxRmR {
                ext_mode,
                src: resolve_rm(src, allocs, p, sm),
                dst: resolve_reg(allocs, p + rm_consumes(src)),
            },
        ],
        Inst::Load64 { src } => seq![
            PInst::Load64 {
                spill: false,
                src: resolve_amode(src, allocs, p, sm),
                dst: resolve_reg(allocs, p + amode_consumes(src)),
            },
        ],
        Inst::Lea { sz, addr } => seq![
            PInst::Lea {
                sz,
                addr: resolve_amode(addr, allocs, p, sm),
                dst: resolve_reg(allocs, p + amode_consumes(addr)),
            },
        ],
        Inst::MovsxRmR { ext_mode, src } => seq![
            PInst::MovsxRmR {
                ext_mode,
                src: resolve_rm(src, allocs, p, sm),
                dst: resolve_reg(allocs, p + rm_consumes(src)),
            },
        ],
        Inst::Store { sz, dst } => seq![
            PInst::Store {
                spill: false,
                sz,
                src: resolve_reg(allocs, p),
                dst: resolve_amode(dst, allocs, p + 1, sm),
            },
        ],
        Inst::ShiftImm { sz, kind, num_bits } => seq![
            PInst::Shift { sz, kind, num_bits: Some(num_bits), dst: resolve_reg(allocs, p + 1) },
        ],
        Inst::ShiftRR { sz, kind } => seq![
            PInst::Shift { sz, kind, num_bits: None, dst: resolve_reg(allocs, p + 2) },
        ],
        Inst::Cmp { sz, op, src2 } => seq![
            PInst::Cmp {
                sz,
                op,
                src1: resolve_reg(allocs, p),
                src2: resolve_rmi(src2, allocs, p + 1, sm),
            },
        ],
        Inst::SetCC { cc } => seq![PInst::SetCC { cc, dst: resolve_reg(allocs, p) }],
        Inst::CMov { sz, src2, cc } => seq![
            PInst::CMov {
                sz,
                cc,
                dst: resolve_reg(allocs, p + 1 + rm_consumes(src2)),
                src: resolve_rm(src2, allocs, p + 1, sm),
            },
        ],
        Inst::CallKnown { f, .. } => seq![PInst::CallKnown { f }],
        Inst::SysCall { .. } => seq![PInst::SysCall],
        Inst::Epilogue { .. } => epilogue_insts(saved, stack_size),
        Inst::JmpKnown { dst, .. } => if v.blocks@[dst as int].0 == i + 1 {
            Seq::<PInst>::empty()
        } else {
            seq![PInst::JmpKnown { dst, short: false }]
        },
        Inst::JmpCond { cc, taken, not_taken } => if v.blocks@[not_taken as int].0 == i + 1 {
            seq![
                PInst::JmpCond { cc, dst: taken, short: false },
                PInst::Fallthrough { dst: not_taken },
            ]
        } else if v.blocks@[taken as int].0 == i + 1 {
            seq![
                PInst::JmpCond { cc: cc.spec_invert(), dst: not_taken, short: false },
                PInst::Fallthrough { dst: taken },
            ]
        } else {
            seq![
                PInst::JmpCond { cc, dst: taken, short: false },
                PInst::JmpKnown { dst: not_taken, short: false },
            ]
        },
        Inst::Assert { cc, dst } => seq![PInst::Assert { cc, dst }],
        Inst::Ud2 => seq![PInst::Ud2],
    }
}

/// Lowers one virtual instruction: resolves its operands through the
/// cursor in the order they were exposed to the solver, and emits its
/// physical form — exactly the lowering table `lowered_insts`, except
/// that a jump may already carry the short flag. A fallthrough or assert
/// whose target is not the next block aborts; an unconditional jump to
/// the next block is elided; a conditional branch uses a fallthrough for
/// whichever edge is next, inverting the condition if needed, and emits
/// two jumps when neither edge falls through.
#[verifier::rlimit(100)]
#[verifier::spinoff_prover]
fn lower_inst(
    code: &mut PCodeBuilder,
    ar: &mut ApplyRegalloc,
    vcode: &VCode,
    i: usize,
    stack_size: usize,
    saved_regs: &Vec<PReg>,
) -> (r: Result<(), PassError>)
    requires
        old(code).wf(),
        wf_vcode(*vcode),
        i < vcode.insts@.len(),
        old(code).nblocks == vcode.blocks@.len(),
        old(code).code.insts@.len() + 20 <= 0x07FF_FFFF,
        old(code).code.block_params@.len() >= 1,
        saved_regs@.len() <= 6,
        old(ar).spill_map@.len() == vcode.spills@.len(),
        forall|k: int|
            0 <= k < old(ar).spill_map@.len()
                ==> #[trigger] old(ar).spill_map@[k] <= 0x0200_0008,
    ensures
        final(code).wf(),
        final(code).nblocks == old(code).nblocks,
        final(code).code.blocks@ == old(code).code.blocks@,
        final(code).code.block_addr@ == old(code).code.block_addr@,
        final(code).code.block_params@.len() == old(code).code.block_params@.len(),
        final(code).code.stack_size == old(code).code.stack_size,
        final(code).code.saved_regs@ == old(code).code.saved_regs@,
        old(code).code.insts@.len() <= final(code).code.insts@.len() <= old(code).code.insts@.len()
            + 8,
        forall|j: int|
            0 <= j < old(code).code.insts@.len()
                ==> #[trigger] final(code).code.insts@[j] == old(code).code.insts@[j],
        crate::cursor::same_tables(*final(ar), *old(ar)),
        final(ar).opos == old(ar).opos,
        r is Ok ==> final(ar).pos as int == old(ar).pos + crate::vcode::inst_consumes(
            vcode.insts@[i as int],
        ),
        crate::solver::inst_allocs_ok(
            vcode.insts@[i as int],
            old(ar).allocs@,
            old(ar).pos as int,
        ) && crate::solver::struct_ok_inst(*vcode, i as int) ==> r is Ok,
        r is Ok ==> crate::solver::inst_allocs_ok(
            vcode.insts@[i as int],
            old(ar).allocs@,
            old(ar).pos as int,
        ) && crate::solver::struct_ok_inst(*vcode, i as int),
        r is Ok ==> seq_eq_mod_short(
            final(code).code.insts@,
            old(code).code.insts@ + lowered_insts(
                *vcode,
                i as int,
                old(ar).allocs@,
                old(ar).pos as int,
                old(ar).spill_map@,
                saved_regs@,
                stack_size,
            ),
        ),
{
    proof {
        assert(crate::vcode::wf_inst(
            vcode.insts@[i as int],
            vcode.blocks@.len() as int,
            vcode.spills@.len() as int,
        ));
    }
    let ghost insts0 = code.code.insts@;
    let ghost allocs0 = ar.allocs@;
    let ghost p0 = ar.pos as int;
    let ghost sm0 = ar.spill_map@;
    let ghost canon = lowered_insts(
        *vcode,
        i as int,
        allocs0,
        p0,
        sm0,
        saved_regs@,
        stack_size,
    );
    let vinst = &vcode.insts[i];
    match vinst {
        Inst::Fallthrough { dst } => {
            if vcode.blocks[*dst].0 != i + 1 {
                return Err(PassError::BadStructure { inst: i });
            }
            code.push(PInst::Fallthrough { dst: *dst });
            proof {
                lemma_emod_snoc(insts0, (PInst::Fallthrough { dst: *dst }), canon[0]);
            }
        },
        Inst::BlockParam { var, val } => {
            let m = match ar.rm(val) {
                Ok(m) => m,
                Err(e) => {
                    return Err(e);
                },
            };
            let mut entry = match code.code.block_params.pop() {
                Some(p) => p,
                None => {
                    proof {
                        assert(false);
                    }
                    Vec::new()
                },
            };
            entry.push((*var, m));
            code.code.block_params.push(entry);
            proof {
                lemma_emod_empty(insts0);
            }
        },
        Inst::Binop { op, sz, src2 } => {
            match ar.reg() {
                Ok(_) => {},
                Err(e) => {
                    return Err(e);
                },
            }
            let src = match ar.rmi(src2) {
                Ok(m) => m,
                Err(e) => {
                    return Err(e);
                },
            };
            let dst = match ar.reg() {
                Ok(d) => d,
                Err(e) => {
                    return Err(e);
                },
            };
            let stored = PInst::Binop { op: *op, sz: *sz, dst, src };
            code.push(stored);
            proof {
                lemma_resolve_rmi(*src2, allocs0, p0 + 1, sm0, src);
                lemma_emod_snoc(insts0, stored, canon[0]);
            }
        },
        Inst::Unop { op, sz } => {
            match ar.reg() {
                Ok(_) => {},
                Err(e) => {
                    return Err(e);
                },
            }
            let dst = match ar.reg() {
                Ok(d) => d,
                Err(e) => {
                    return Err(e);
                },
            };
            let stored = PInst::Unop { op: *op, sz: *sz, dst };
            code.push(stored);
            proof {
                lemma_emod_snoc(insts0, stored, canon[0]);
            }
        },
        Inst::Mul { sz, src2 } => {
            match ar.next() {
                Ok(_) => {},
                Err(e) => {
                    return Err(e);
                },
            }
            let src = match ar.rm(src2) {
                Ok(m) => m,
                Err(e) => {
                    return Err(e);
                },
            };
            match ar.next() {
                Ok(_) => {},
                Err(e) => {
                    return Err(e);
                },
            }
            match ar.next() {
                Ok(_) => {},
                Err(e) => {
                    return Err(e);
                },
            }
            let stored = PInst::Mul { sz: *sz, src };
            code.push(stored);
            proof {
                lemma_resolve_rm(*src2, allocs0, p0 + 1, sm0, src);
                lemma_emod_snoc(insts0, stored, canon[0]);
            }
        },
        Inst::Imm { sz, src } => {
            let dst = match ar.reg() {
                Ok(d) => d,
                Err(e) => {
                    return Err(e);
                },
            };
            let stored = PInst::Imm { sz: *sz, dst, src: *src };
            code.push(stored);
            proof {
                lemma_emod_snoc(insts0, stored, canon[0]);
            }
        },
        Inst::MovRR { .. } => {
            proof {
                lemma_emod_empty(insts0);
            }
        },
        Inst::MovPR { .. } => {
            match ar.next() {
                Ok(_) => {},
                Err(e) => {
                    return Err(e);
                },
            }
            proof {
                lemma_emod_empty(insts0);
            }
        },
        Inst::MovzxRmR { ext_mode, src } => {
            let s = match ar.rm(src) {
                Ok(m) => m,
                Err(e) => {
                    return Err(e);
                },
            };
            let dst = match ar.reg() {
                Ok(d) => d,
                Err(e) => {
                    return Err(e);
                },
            };
            let stored = PInst::MovzxRmR { ext_mode: *ext_mode, src: s, dst };
            code.push(stored);
            proof {
                lemma_resolve_rm(*src, allocs0, p0, sm0, s);
                lemma_emod_snoc(insts0, stored, canon[0]);
            }
        },
        Inst::Load64 { src } => {
            let s = match ar.mem(src) {
                Ok(m) => m,
                Err(e) => {
                    return Err(e);
                },
            };
            let dst = match ar.reg() {
                Ok(d) => d,
                Err(e) => {
                    return Err(e);
                },
            };
            let stored = PInst::Load64 { spill: false, src: s, dst };
            code.push(stored);
            proof {
                lemma_resolve_amode(*src, allocs0, p0, sm0, s);
                lemma_emod_snoc(insts0, stored, canon[0]);
            }
        },
        Inst::Lea { sz, addr } => {
            let a = match ar.mem(addr) {
                Ok(m) => m,
                Err(e) => {
                    return Err(e);
                },
            };
            let dst = match ar.reg() {
                Ok(d) => d,
                Err(e) => {
                    return Err(e);
                },
            };
            let stored = PInst::Lea { sz: *sz, addr: a, dst };
            code.push(stored);
            proof {
                lemma_resolve_amode(*addr, allocs0, p0, sm0, a);
                lemma_emod_snoc(insts0, stored, canon[0]);
            }
        },
        Inst::MovsxRmR { ext_mode, src } => {
            let s = match ar.rm(src) {
                Ok(m) => m,
                Err(e) => {
                    return Err(e);
                },
            };
            let dst = match ar.reg() {
                Ok(d) => d,
                Err(e) => {
                    return Err(e);
                },
            };
            let stored = PInst::MovsxRmR { ext_mode: *ext_mode, src: s, dst };
            code.push(stored);
            proof {
                lemma_resolve_rm(*src, allocs0, p0, sm0, s);
                lemma_emod_snoc(insts0, stored, canon[0]);
            }
        },
        Inst::Store { sz, dst } => {
            let s = match ar.reg() {
                Ok(d) => d,
                Err(e) => {
                    return Err(e);
                },
            };
            let d = match ar.mem(dst) {
                Ok(m) => m,
                Err(e) => {
                    return Err(e);
                },
            };
            let stored = PInst::Store { spill: false, sz: *sz, src: s, dst: d };
            code.push(stored);
            proof {
                lemma_resolve_amode(*dst, allocs0, p0 + 1, sm0, d);
                lemma_emod_snoc(insts0, stored, canon[0]);
            }
        },
        Inst::ShiftImm { sz, kind, num_bits } => {
            match ar.next() {
                Ok(_) => {},
                Err(e) => {
                    return Err(e);
                },
            }
            let dst = match ar.reg() {
                Ok(d) => d,
                Err(e) => {
                    return Err(e);
                },
            };
            let stored = PInst::Shift { sz: *sz, kind: *kind, num_bits: Some(*num_bits), dst };
            code.push(stored);
            proof {
                lemma_emod_snoc(insts0, stored, canon[0]);
            }
        },
        Inst::ShiftRR { sz, kind } => {
            match ar.next() {
                Ok(_) => {},
                Err(e) => {
                    return Err(e);
                },
            }
            match ar.next() {
                Ok(_) => {},
                Err(e) => {
                    return Err(e);
                },
            }
            let dst = match ar.reg() {
                Ok(d) => d,
                Err(e) => {
                    return Err(e);
                },
            };
            let stored = PInst::Shift { sz: *sz, kind: *kind, num_bits: None, dst };
            code.push(stored);
            proof {
                lemma_emod_snoc(insts0, stored, canon[0]);
            }
        },
        Inst::Cmp { sz, op, src2 } => {
            let src1 = match ar.reg() {
                Ok(d) => d,
                Err(e) => {
                    return Err(e);
                },
            };
            let s2 = match ar.rmi(src2) {
                Ok(m) => m,
                Err(e) => {
                    return Err(e);
                },
            };
            let stored = PInst::Cmp { sz: *sz, op: *op, src1, src2: s2 };
            code.push(stored);
            proof {
                lemma_resolve_rmi(*src2, allocs0, p0 + 1, sm0, s2);
                lemma_emod_snoc(insts0, stored, canon[0]);
            }
        },
        Inst::SetCC { cc } => {
            let dst = match ar.reg() {
                Ok(d) => d,
                Err(e) => {
                    return Err(e);
                },
            };
            let stored = PInst::SetCC { cc: *cc, dst };
            code.push(stored);
            proof {
                lemma_emod_snoc(insts0, stored, canon[0]);
            }
        },
        Inst::CMov { sz, src2, cc } => {
            match ar.reg() {
                Ok(_) => {},
                Err(e) => {
                    return Err(e);
                },
            }
            let s = match ar.rm(src2) {
                Ok(m) => m,
                Err(e) => {
                    return Err(e);
                },
            };
            let dst = match ar.reg() {
                Ok(d) => d,
                Err(e) => {
                    return Err(e);
                },
            };
            let stored = PInst::CMov { sz: *sz, cc: *cc, dst, src: s };
            code.push(stored);
            proof {
                lemma_resolve_rm(*src2, allocs0, p0 + 1, sm0, s);
                lemma_emod_snoc(insts0, stored, canon[0]);
            }
        },
        Inst::CallKnown { f, operands } => {
            match ar.skip(operands.len()) {
                Ok(()) => {},
                Err(e) => {
                    return Err(e);
                },
            }
            let stored = PInst::CallKnown { f: *f };
            code.push(stored);
            proof {
                lemma_emod_snoc(insts0, stored, canon[0]);
            }
        },
        Inst::SysCall { operands } => {
            match ar.skip(operands.len()) {
                Ok(()) => {},
                Err(e) => {
                    return Err(e);
                },
            }
            code.push(PInst::SysCall);
            proof {
                lemma_emod_snoc(insts0, PInst::SysCall, canon[0]);
            }
        },
        Inst::Epilogue { params } => {
            match ar.skip(params.len()) {
                Ok(()) => {},
                Err(e) => {
                    return Err(e);
                },
            }
            code.push_epilogue(stack_size, saved_regs);
            proof {
                assert(code.code.insts@ == insts0 + canon);
                lemma_emod_refl(code.code.insts@);
            }
        },
        Inst::JmpKnown { dst, params } => {
            match ar.skip(params.len()) {
                Ok(()) => {},
                Err(e) => {
                    return Err(e);
                },
            }
            if vcode.blocks[*dst].0 != i + 1 {
                code.push(PInst::JmpKnown { dst: *dst, short: false });
                proof {
                    lemma_emod_snoc(
                        insts0,
                        code.code.insts@[insts0.len() as int],
                        canon[0],
                    );
                }
            } else {
                proof {
                    lemma_emod_empty(insts0);
                }
            }
        },
        Inst::JmpCond { cc, taken, not_taken } => {
            if vcode.blocks[*not_taken].0 == i + 1 {
                code.push(PInst::JmpCond { cc: *cc, dst: *taken, short: false });
                let ghost s1 = code.code.insts@[insts0.len() as int];
                code.push(PInst::Fallthrough { dst: *not_taken });
                proof {
                    lemma_emod_snoc2(
                        insts0,
                        s1,
                        (PInst::Fallthrough { dst: *not_taken }),
                        canon[0],
                        canon[1],
                    );
                }
            } else if vcode.blocks[*taken].0 == i + 1 {
                code.push(PInst::JmpCond { cc: cc.invert(), dst: *not_taken, short: false });
                let ghost s1 = code.code.insts@[insts0.len() as int];
                code.push(PInst::Fallthrough { dst: *taken });
                proof {
                    lemma_emod_snoc2(
                        insts0,
                        s1,
                        (PInst::Fallthrough { dst: *taken }),
                        canon[0],
                        canon[1],
                    );
                }
            } else {
                code.push(PInst::JmpCond { cc: *cc, dst: *taken, short: false });
                let ghost s1 = code.code.insts@[insts0.len() as int];
                code.push(PInst::JmpKnown { dst: *not_taken, short: false });
                let ghost s2 = code.code.insts@[insts0.len() as int + 1];
                proof {
                    lemma_emod_snoc2(insts0, s1, s2, canon[0], canon[1]);
                }
            }
        },
        Inst::Assert { cc, dst } => {
            if vcode.blocks[*dst].0 != i + 1 {
                return Err(PassError::BadStructure { inst: i });
            }
            code.push(PInst::Assert { cc: *cc, dst: *dst });
            proof {
                lemma_emod_snoc(insts0, (PInst::Assert { cc: *cc, dst: *dst }), canon[0]);
            }
        },
        Inst::Ud2 => {
            code.push(PInst::Ud2);
            proof {
                lemma_emod_snoc(insts0, PInst::Ud2, canon[0]);
            }
        },
    }
    Ok(())
}

/// Everything that holds between loop iterations of the pass: the cursor
/// mirrors the solver's tables and stands at instruction boundary `i`; the
/// builder is well-formed with the frame recorded; the blocks finished so
/// far tile the emitted instructions and own their provisional addresses;
/// the walk is inside virtual block `bb.cur`; and the emitted-instruction
/// count stays inside its budget.
pub open spec fn pass_inv(
    v: VCode,
    o: AllocResult,
    ar: ApplyRegalloc,
    code: PCodeBuilder,
    bb: BlockBuilder,
    stack_size: usize,
    saved: Seq<PReg>,
    i: int,
    epos: int,
) -> bool {
    &&& wf_vcode(v)
    &&& crate::solver::wf_alloc_result(o, v)
    &&& ar.offsets@ == o.inst_alloc_offsets@
    &&& ar.allocs@ == o.allocs@
    &&& ar.regspill_off == v.spills@[1]
    &&& crate::builder::edits_slots_ok(o.edits@, 0, ar.regspill_off)
    &&& ar.spill_map@.len() == v.spills@.len()
    &&& forall|k: int| 0 <= k < ar.spill_map@.len() ==> #[trigger] ar.spill_map@[k] <= 0x0200_0008
    &&& stack_size <= 0x0200_0000
    &&& code.code.stack_size == stack_size
    &&& saved.len() <= 6
    &&& code.wf()
    &&& code.nblocks == v.blocks@.len()
    &&& code.code.saved_regs@.len() == 0
    &&& bb.cur < v.blocks@.len()
    &&& code.code.blocks@.len() == bb.cur
    &&& code.code.block_addr@.len() == bb.cur + 1
    &&& code.code.block_params@.len() == bb.cur + 1
    &&& forall|b: int|
        0 <= b < bb.cur ==> #[trigger] code.code.block_addr@[b] as int == sum_max_len(
            code.code.insts@,
            code.code.blocks@[b].0 as int,
        )
    &&& code.code.block_addr@[bb.cur as int] as int == sum_max_len(
        code.code.insts@,
        bb.start as int,
    )
    &&& bb.start <= code.code.insts@.len()
    &&& (bb.cur == 0 ==> bb.start == 0)
    &&& (bb.cur > 0 ==> code.code.blocks@[bb.cur - 1].1 == bb.start)
    &&& forall|k: int|
        0 <= k < code.code.blocks@.len()
            ==> (#[trigger] code.code.blocks@[k]).0 <= code.code.blocks@[k].1
                && code.code.blocks@[k].1 <= bb.start
    &&& forall|k: int|
        0 < k < code.code.blocks@.len()
            ==> (#[trigger] code.code.blocks@[k]).0 == code.code.blocks@[k - 1].1
    &&& (code.code.blocks@.len() > 0 ==> code.code.blocks@[0].0 == 0)
    &&& v.blocks@[bb.cur as int].0 <= i <= v.blocks@[bb.cur as int].1
    &&& bb.next == v.blocks@[bb.cur as int].1
    &&& 0 <= epos <= o.edits@.len()
    &&& code.code.insts@.len() <= 16 + 9 * i + epos
}

/// Opens the block that starts at virtual instruction `i`: finalizes the
/// previous block's instruction range and pins the new block's provisional
/// address at the current running length.
#[verifier::rlimit(60)]
fn open_block(
    code: &mut PCodeBuilder,
    bb: &mut BlockBuilder,
    ar: &ApplyRegalloc,
    vcode: &VCode,
    i: usize,
    stack_size: usize,
    o: Ghost<AllocResult>,
    saved: Ghost<Seq<PReg>>,
    epos: Ghost<int>,
)
    requires
        pass_inv(
            *vcode,
            o@,
            *ar,
            *old(code),
            *old(bb),
            stack_size,
            saved@,
            i as int,
            epos@,
        ),
        i < vcode.insts@.len(),
        old(bb).next == i,
    ensures
        pass_inv(
            *vcode,
            o@,
            *ar,
            *final(code),
            *final(bb),
            stack_size,
            saved@,
            i as int,
            epos@,
        ),
        final(bb).cur == old(bb).cur + 1,
        final(code).code.insts@ == old(code).code.insts@,
        final(code).code.blocks@ == old(code).code.blocks@.push(
            (old(bb).start, old(code).code.insts@.len() as usize),
        ),
        final(bb).start == old(code).code.insts@.len(),
{
    let ghost v = *vcode;
    proof {
        if bb.cur == v.blocks@.len() - 1 {
            assert(v.blocks@[bb.cur as int].1 == v.insts@.len());
        }
    }
    bb.finish_block(code, &vcode.blocks);
    code.code.block_params.push(Vec::new());
    code.code.block_addr.push(code.code.len);
}

/// One iteration of the pass over virtual instruction `i`: check the
/// allocation boundary, open a new block if one starts here, splice in the
/// edits before the instruction, lower it, and splice in the edits after
/// it.
#[verifier::rlimit(100)]
#[verifier::spinoff_prover]
fn step(
    vcode: &VCode,
    edits: &Vec<(ProgPoint, crate::solver::Edit)>,
    code: &mut PCodeBuilder,
    ar: &mut ApplyRegalloc,
    bb: &mut BlockBuilder,
    epos: &mut usize,
    i: usize,
    stack_size: usize,
    saved_regs: &Vec<PReg>,
    o: Ghost<AllocResult>,
) -> (r: Result<(), PassError>)
    requires
        pass_inv(
            *vcode,
            o@,
            *old(ar),
            *old(code),
            *old(bb),
            stack_size,
            saved_regs@,
            i as int,
            *old(epos) as int,
        ),
        old(ar).opos == i,
        i < vcode.insts@.len(),
        edits@ == o@.edits@,
        forall|k: int|
            *old(epos) <= k < edits@.len()
                ==> crate::solver::pt_ord((#[trigger] edits@[k]).0) >= 2 * i,
    ensures
        r is Ok ==> pass_inv(
            *vcode,
            o@,
            *final(ar),
            *final(code),
            *final(bb),
            stack_size,
            saved_regs@,
            i as int + 1,
            *final(epos) as int,
        ),
        crate::cursor::same_tables(*final(ar), *old(ar)),
        r is Ok ==> final(code).code.blocks@ == (if old(bb).next == i {
            old(code).code.blocks@.push((old(bb).start, old(code).code.insts@.len() as usize))
        } else {
            old(code).code.blocks@
        }),
        r is Ok ==> final(bb).cur as int == (if old(bb).next == i {
            old(bb).cur + 1
        } else {
            old(bb).cur as int
        }),
        r is Ok ==> final(bb).start as int == (if old(bb).next == i {
            old(code).code.insts@.len() as int
        } else {
            old(bb).start as int
        }),
        r is Ok ==> final(ar).opos == i + 1,
        r is Ok ==> final(ar).pos as int == old(ar).pos + crate::vcode::inst_consumes(
            vcode.insts@[i as int],
        ),
        ({
            &&& old(ar).offsets@[i as int] == old(ar).pos
            &&& crate::solver::inst_allocs_ok(
                vcode.insts@[i as int],
                old(ar).allocs@,
                old(ar).pos as int,
            )
            &&& crate::solver::struct_ok_inst(*vcode, i as int)
            &&& forall|k: int|
                0 <= k < o@.edits@.len()
                    ==> !((#[trigger] o@.edits@[k]).1.from is Stack
                        && o@.edits@[k].1.to is Stack)
        }) ==> r is Ok,
        r is Ok ==> old(ar).offsets@[i as int] == old(ar).pos
            && crate::solver::inst_allocs_ok(
            vcode.insts@[i as int],
            old(ar).allocs@,
            old(ar).pos as int,
        ) && crate::solver::struct_ok_inst(*vcode, i as int),
        r is Ok ==> ({
            let mid = run_end(edits@, *old(epos) as int, ProgPoint::spec_before(i));
            &&& *final(epos) as int == run_end(edits@, mid, ProgPoint::spec_after(i))
            &&& seq_eq_mod_short(
                final(code).code.insts@,
                old(code).code.insts@ + edits_insts(
                    edits@,
                    *old(epos) as int,
                    mid,
                    old(ar).regspill_off,
                ) + lowered_insts(
                    *vcode,
                    i as int,
                    old(ar).allocs@,
                    old(ar).pos as int,
                    old(ar).spill_map@,
                    saved_regs@,
                    stack_size,
                ) + edits_insts(edits@, mid, *final(epos) as int, old(ar).regspill_off),
            )
        }),
        r is Ok ==> forall|k: int|
            *old(epos) <= k < *final(epos)
                ==> !((#[trigger] edits@[k]).1.from is Stack && edits@[k].1.to is Stack),
        r is Ok ==> forall|k: int|
            *final(epos) <= k < edits@.len()
                ==> crate::solver::pt_ord((#[trigger] edits@[k]).0) >= 2 * (i + 1),
{
    let ghost v = *vcode;
    proof {
        assert(v.insts@.len() <= 0x40_0000);
        assert(o@.edits@.len() <= 0x40_0000);
    }
    if bb.next == i {
        open_block(code, bb, ar, vcode, i, stack_size, o, Ghost(saved_regs@), Ghost(*epos as int));
    }
    match ar.next_inst() {
        Ok(()) => {},
        Err(e) => {
            return Err(e);
        },
    }
    let ghost e0 = *epos;
    let ghost snap1 = code.code.insts@;
    match code.apply_edits(edits, epos, ar, ProgPoint::before(i)) {
        Ok(()) => {},
        Err(e) => {
            return Err(e);
        },
    }
    let ghost emid = *epos;
    proof {
        lemma_coupling_stable(
            snap1,
            code.code.insts@,
            code.code.blocks@,
            code.code.block_addr@,
            bb.cur as int,
            bb.start as int,
        );
        lemma_run_end_is(edits@, e0 as int, ProgPoint::spec_before(i), emid as int);
        if (emid as int) < edits@.len() {
            assert(edits@[emid as int].0 != ProgPoint::spec_before(i));
            assert(crate::solver::pt_ord(edits@[emid as int].0) >= 2 * i + 1);
        }
        assert forall|k: int| emid <= k < edits@.len() implies crate::solver::pt_ord(
            (#[trigger] edits@[k]).0,
        ) >= 2 * i + 1 by {
            if k > emid as int {
                assert(crate::solver::pt_le(edits@[emid as int].0, edits@[k].0));
                crate::solver::lemma_pt_le_ord(edits@[emid as int].0, edits@[k].0);
            }
        }
    }
    let ghost snap2 = code.code.insts@;
    match lower_inst(code, ar, vcode, i, stack_size, saved_regs) {
        Ok(()) => {},
        Err(e) => {
            return Err(e);
        },
    }
    proof {
        lemma_coupling_stable(
            snap2,
            code.code.insts@,
            code.code.blocks@,
            code.code.block_addr@,
            bb.cur as int,
            bb.start as int,
        );
    }
    let ghost snap3 = code.code.insts@;
    match code.apply_edits(edits, epos, ar, ProgPoint::after(i)) {
        Ok(()) => {},
        Err(e) => {
            return Err(e);
        },
    }
    proof {
        lemma_coupling_stable(
            snap3,
            code.code.insts@,
            code.code.blocks@,
            code.code.block_addr@,
            bb.cur as int,
            bb.start as int,
        );
        lemma_run_end_is(edits@, emid as int, ProgPoint::spec_after(i), *epos as int);
        if (*epos as int) < edits@.len() {
            assert(edits@[*epos as int].0 != ProgPoint::spec_after(i));
            assert(crate::solver::pt_ord(edits@[*epos as int].0) >= 2 * i + 2);
        }
        assert forall|k: int| *epos <= k < edits@.len() implies crate::solver::pt_ord(
            (#[trigger] edits@[k]).0,
        ) >= 2 * (i + 1) by {
            if k > *epos as int {
                assert(crate::solver::pt_le(edits@[*epos as int].0, edits@[k].0));
                crate::solver::lemma_pt_le_ord(edits@[*epos as int].0, edits@[k].0);
            }
        }
        let aseg = edits_insts(edits@, e0 as int, emid as int, old(ar).regspill_off);
        let bseg = lowered_insts(
            v,
            i as int,
            old(ar).allocs@,
            old(ar).pos as int,
            old(ar).spill_map@,
            saved_regs@,
            stack_size,
        );
        let cseg = edits_insts(edits@, emid as int, *epos as int, old(ar).regspill_off);
        assert(snap2 == snap1 + aseg);
        assert(seq_eq_mod_short(snap3, snap2 + bseg));
        assert(code.code.insts@ == snap3 + cseg);
        lemma_emod_refl(cseg);
        lemma_emod_concat(snap3, cseg, snap2 + bseg, cseg);
        assert(snap2 + bseg + cseg == snap1 + aseg + bseg + cseg);
        assert(seq_eq_mod_short(code.code.insts@, snap1 + aseg + bseg + cseg));
    }
    Ok(())
}

/// The emitted stream starts as the prologue: the canonical stream for
/// zero instructions.
proof fn lemma_stream_zero(v: VCode, o: AllocResult, insts: Seq<PInst>, stack_size: usize)
    requires
        insts == prologue_insts(filter_clobbered(callee_saved_list(), v, o), stack_size),
        stack_size as int == spec_stack_size(
            v.spills@,
            o.num_spillslots as int,
            filter_clobbered(callee_saved_list(), v, o).len() as int,
        ),
    ensures
        seq_eq_mod_short(insts, stream_upto(v, o, 0)),
{
    assert(stream_upto(v, o, 0) == prologue_insts(
        filter_clobbered(callee_saved_list(), v, o),
        ((spec_stack_size(
            v.spills@,
            o.num_spillslots as int,
            filter_clobbered(callee_saved_list(), v, o).len() as int,
        )) as usize),
    ));
    lemma_emod_refl(insts);
}

/// Closing the last block completes the boundary table: every block's
/// instruction range runs between the stream positions of its first and
/// one-past-last virtual instructions.
proof fn lemma_final_blocks(
    v: VCode,
    o: AllocResult,
    pre: Seq<(usize, usize)>,
    post: Seq<(usize, usize)>,
    start_last: usize,
    end_last: usize,
    n: int,
)
    requires
        n == v.insts@.len(),
        v.blocks@.len() >= 1,
        pre.len() == v.blocks@.len() - 1,
        post == pre.push((start_last, end_last)),
        forall|b: int|
            0 <= b < pre.len() ==> (#[trigger] pre[b]).0 as int == (if b == 0 {
                0int
            } else {
                stream_upto(v, o, v.blocks@[b].0 as int).len() as int
            }) && pre[b].1 as int == stream_upto(v, o, v.blocks@[b].1 as int).len() as int,
        pre.len() == 0 ==> start_last == 0,
        pre.len() > 0 ==> start_last as int == stream_upto(
            v,
            o,
            v.blocks@[pre.len() as int].0 as int,
        ).len() as int,
        end_last as int == stream_upto(v, o, n).len() as int,
        v.blocks@[v.blocks@.len() - 1].1 == n,
    ensures
        forall|b: int|
            0 <= b < v.blocks@.len() ==> (#[trigger] post[b]).0 as int == (if b == 0 {
                0int
            } else {
                stream_upto(v, o, v.blocks@[b].0 as int).len() as int
            }) && post[b].1 as int == stream_upto(v, o, v.blocks@[b].1 as int).len() as int,
{
    assert forall|b: int|
        0 <= b < v.blocks@.len() implies (#[trigger] post[b]).0 as int == (if b == 0 {
        0int
    } else {
        stream_upto(v, o, v.blocks@[b].0 as int).len() as int
    }) && post[b].1 as int == stream_upto(v, o, v.blocks@[b].1 as int).len() as int by {
        if b < pre.len() {
            assert(post[b] == pre[b]);
        } else {
            assert(post[b] == (start_last, end_last));
        }
    }
}

/// The finish phase only flips shorten flags, so the stream relation to
/// the canonical form survives it.
proof fn lemma_stream_through_finish(built: Seq<PInst>, fin: Seq<PInst>, canon: Seq<PInst>)
    requires
        fin.len() == built.len(),
        forall|j: int|
            0 <= j < fin.len() ==> #[trigger] fin[j] == built[j] || fin[j]
                == built[j].spec_shorten(),
        seq_eq_mod_short(built, canon),
    ensures
        seq_eq_mod_short(fin, canon),
{
    assert forall|j: int| 0 <= j < fin.len() implies eq_mod_short(#[trigger] fin[j], built[j]) by {}
    lemma_emod_trans(fin, built, canon);
}

/// The head of the pass: runs the clobber analysis, selects the
/// callee-saved registers to save and the caller-saved clobbers to
/// report, and computes the frame layout.
#[verifier::spinoff_prover]
fn prepare_pass(vcode: &VCode, out: &AllocResult) -> (r: (Vec<PReg>, Vec<PReg>, Vec<usize>, usize))
    requires
        wf_vcode(*vcode),
        crate::solver::wf_alloc_result(*out, *vcode),
    ensures
        r.0@ == filter_clobbered(callee_saved_list(), *vcode, *out),
        r.1@ =~= filter_clobbered(caller_saved_list(), *vcode, *out),
        r.0@.len() <= 6,
        r.2@.len() == vcode.spills@.len(),
        r.2@ == spec_spill_map(vcode.spills@, out.num_spillslots as int, r.0@.len() as int),
        forall|k: int| 0 <= k < r.2@.len() ==> #[trigger] r.2@[k] <= 0x0200_0008,
        r.3 as int == spec_stack_size(
            vcode.spills@,
            out.num_spillslots as int,
            r.0@.len() as int,
        ),
        r.3 <= 0x0200_0000,
{
    let clobbers = get_clobbers(vcode, out);
    let cs = callee_saved();
    proof {
        assert(cs@ =~= callee_saved_list());
    }
    let saved_regs = select_clobbered(&cs, clobbers, vcode, out);
    let ncs = non_callee_saved();
    proof {
        assert(ncs@ =~= caller_saved_list());
    }
    let caller_clobbers = select_clobbered(&ncs, clobbers, vcode, out);
    let (spill_map, stack_size) = build_spill_map(
        &vcode.spills,
        out.num_spillslots,
        saved_regs.len(),
    );
    proof {
        assert(saved_regs@ =~= filter_clobbered(callee_saved_list(), *vcode, *out));
    }
    (saved_regs, caller_clobbers, spill_map, stack_size)
}

/// The tail of the pass, after every instruction is lowered: closes the
/// last block, assembles the outgoing ABI, and runs the builder's finish
/// phase.
#[verifier::rlimit(100)]
#[verifier::spinoff_prover]
fn finish_pass(
    code: PCodeBuilder,
    bb: BlockBuilder,
    vcode: &VCode,
    saved_regs: Vec<PReg>,
    caller_clobbers: Vec<PReg>,
    stack_size: usize,
    o: Ghost<AllocResult>,
    saved: Ghost<Seq<PReg>>,
    ar: Ghost<ApplyRegalloc>,
    epos: Ghost<int>,
) -> (r: (ProcAbi, PCode))
    requires
        pass_inv(
            *vcode,
            o@,
            ar@,
            code,
            bb,
            stack_size,
            saved@,
            vcode.insts@.len() as int,
            epos@,
        ),
        saved_regs@ == saved@,
        saved@ == filter_clobbered(callee_saved_list(), *vcode, o@),
        stack_size as int == spec_stack_size(
            vcode.spills@,
            o@.num_spillslots as int,
            saved@.len() as int,
        ),
        caller_clobbers@ =~= filter_clobbered(caller_saved_list(), *vcode, o@),
        seq_eq_mod_short(code.code.insts@, stream_upto(*vcode, o@, vcode.insts@.len() as int)),
        forall|b: int|
            0 <= b < bb.cur ==> (#[trigger] code.code.blocks@[b]).0 as int == (if b == 0 {
                0int
            } else {
                stream_upto(*vcode, o@, vcode.blocks@[b].0 as int).len() as int
            }) && code.code.blocks@[b].1 as int == stream_upto(
                *vcode,
                o@,
                vcode.blocks@[b].1 as int,
            ).len() as int,
        bb.cur > 0 ==> bb.start as int == stream_upto(
            *vcode,
            o@,
            vcode.blocks@[bb.cur as int].0 as int,
        ).len() as int,
    ensures
        r.1.wf(),
        r.1.blocks@.len() == vcode.blocks@.len(),
        r.1.saved_regs@ == saved@,
        r.1.stack_size == stack_size,
        r.0.args@ =~= vcode.abi.args@,
        rets_eq(r.0.rets, vcode.abi.rets),
        r.0.clobbers@ == caller_clobbers@,
        seq_eq_mod_short(r.1.insts@, stream_upto(*vcode, o@, vcode.insts@.len() as int)),
        forall|b: int|
            0 <= b < vcode.blocks@.len() ==> (#[trigger] r.1.blocks@[b]).0 as int == (if b == 0 {
                0int
            } else {
                stream_upto(*vcode, o@, vcode.blocks@[b].0 as int).len() as int
            }) && r.1.blocks@[b].1 as int == stream_upto(
                *vcode,
                o@,
                vcode.blocks@[b].1 as int,
            ).len() as int,
{
    let ghost v = *vcode;
    let ghost o = o@;
    let mut code = code;
    let mut bb = bb;
    let ninsts = vcode.insts.len();
    let nblocks_v = vcode.blocks.len();
    proof {
        assert(blocks_contiguous(v.blocks@, ninsts as int));
        crate::pcode::lemma_block_bounds(v.blocks@, ninsts as int, bb.cur as int);
        assert(v.blocks@[bb.cur as int].1 == ninsts);
        lemma_only_last_block_ends(v.blocks@, ninsts as int, bb.cur as int);
    }
    let ghost blocks_pre_final = code.code.blocks@;
    let ghost start_pre_final = bb.start;
    let ghost insts_pre_final = code.code.insts@;
    bb.finish_block(&mut code, &vcode.blocks);
    proof {
        lemma_final_blocks(
            v,
            o,
            blocks_pre_final,
            code.code.blocks@,
            start_pre_final,
            insts_pre_final.len() as usize,
            ninsts as int,
        );
    }
    let ghost built = code.code.insts@;
    let abi = ProcAbi {
        args: copy_args(&vcode.abi.args),
        rets: match &vcode.abi.rets {
            Some(rs) => Some(copy_args(rs)),
            None => None,
        },
        clobbers: caller_clobbers,
    };
    let pc = code.finish(saved_regs);
    proof {
        lemma_stream_through_finish(built, pc.insts@, stream_upto(v, o, ninsts as int));
    }
    let abi2 = abi;
    (abi2, pc)
}

/// Applies the solver's result to the virtual program, producing the
/// procedure's ABI — with its caller-saved clobber list filled in — and the
/// finished physical program. The virtual program and the solver's output
/// must be well-shaped (`wf_vcode`, `wf_alloc_result`); any disagreement
/// between them that only lowering can discover — misaligned allocation
/// counts, a register-class operand in a spill slot, a stack-to-stack
/// edit, a broken fallthrough promise — aborts with the corresponding
/// error.
///
/// On success the artifact is fully consistent: its blocks tile the
/// instruction stream, every block address is the summed length of the
/// instructions before it, the total length is the sum over the whole
/// stream, every short jump reaches its target within a signed byte, its
/// stack size follows the frame layout formula, and its saved-register
/// list is exactly the callee-saved registers the procedure clobbers.
/// Success also certifies the per-instruction checks: every boundary
/// matched the solver's cumulative count, every operand window was valid,
/// and every structural promise held (`certified_upto`); and on a `clean`
/// result the pass never aborts.
#[verifier::rlimit(100)]
#[verifier::spinoff_prover]
pub fn regalloc_vcode(vcode: &VCode, out: AllocResult) -> (r: Result<(ProcAbi, PCode), PassError>)
    requires
        wf_vcode(*vcode),
        crate::solver::wf_alloc_result(out, *vcode),
    ensures
        r matches Ok(pair) ==> {
            &&& pair.1.wf()
            &&& pair.1.blocks@.len() == vcode.blocks@.len()
            &&& pair.1.saved_regs@ =~= filter_clobbered(callee_saved_list(), *vcode, out)
            &&& pair.1.stack_size as int == spec_stack_size(
                vcode.spills@,
                out.num_spillslots as int,
                filter_clobbered(callee_saved_list(), *vcode, out).len() as int,
            )
            &&& pair.0.args@ =~= vcode.abi.args@
            &&& rets_eq(pair.0.rets, vcode.abi.rets)
            &&& pair.0.clobbers@ =~= filter_clobbered(caller_saved_list(), *vcode, out)
        },
        crate::solver::clean(*vcode, out) ==> r is Ok,
        r is Ok ==> crate::solver::certified_upto(*vcode, out, vcode.insts@.len() as int),
        r is Ok ==> forall|k: int|
            0 <= k < out.edits@.len()
                ==> !((#[trigger] out.edits@[k]).1.from is Stack && out.edits@[k].1.to is Stack),
        r matches Ok(pair) ==> seq_eq_mod_short(
            pair.1.insts@,
            stream_upto(*vcode, out, vcode.insts@.len() as int),
        ),
        r matches Ok(pair) ==> forall|b: int|
            0 <= b < vcode.blocks@.len() ==> (#[trigger] pair.1.blocks@[b]).0 as int == (
            if b == 0 {
                0int
            } else {
                stream_upto(*vcode, out, vcode.blocks@[b].0 as int).len() as int
            }) && pair.1.blocks@[b].1 as int == stream_upto(
                *vcode,
                out,
                vcode.blocks@[b].1 as int,
            ).len() as int,
{
    let ghost v = *vcode;
    let (saved_regs, caller_clobbers, spill_map, stack_size) = prepare_pass(vcode, &out);
    let outgoing = vcode.spills[1];
    let ghost saved = saved_regs@;
    let ghost o = out;
    let AllocResult { allocs, inst_alloc_offsets, num_spillslots, edits } = out;
    let mut ar = ApplyRegalloc::new(allocs, inst_alloc_offsets, outgoing, spill_map);
    let ninsts = vcode.insts.len();
    let nblocks_v = vcode.blocks.len();
    let mut code = PCodeBuilder::new(stack_size, nblocks_v);
    let mut bb = BlockBuilder::new(&vcode.blocks);
    code.push_prologue(stack_size, &saved_regs);
    let mut epos: usize = 0;
    let mut i: usize = 0;
    proof {
        assert(crate::builder::edits_slots_ok(edits@, 0, outgoing)) by {
            assert forall|k: int| 0 <= k < edits@.len() implies {
                &&& ((#[trigger] edits@[k]).1.from matches crate::solver::Alloc::Stack(n)
                    ==> outgoing + 8 * n <= 0x7FFF_FFFF)
                &&& (edits@[k].1.to matches crate::solver::Alloc::Stack(n)
                    ==> outgoing + 8 * n <= 0x7FFF_FFFF)
            } by {
                assert(crate::solver::wf_alloc(o.edits@[k].1.from, o.num_spillslots as int));
                assert(crate::solver::wf_alloc(o.edits@[k].1.to, o.num_spillslots as int));
            }
        }
        assert(pass_inv(v, o, ar, code, bb, stack_size, saved, 0, 0));
        assert(saved == filter_clobbered(callee_saved_list(), v, o));
        assert(stack_size as int == spec_stack_size(
            v.spills@,
            o.num_spillslots as int,
            saved.len() as int,
        ));
        assert(ar.spill_map@ == spec_spill_map(
            v.spills@,
            o.num_spillslots as int,
            saved.len() as int,
        ));
        assert(code.code.insts@ == prologue_insts(saved, stack_size));
        lemma_stream_zero(v, o, code.code.insts@, stack_size);
    }
    while i < ninsts
        invariant
            *vcode == v,
            edits@ == o.edits@,
            ninsts == v.insts@.len(),
            nblocks_v == v.blocks@.len(),
            saved_regs@ == saved,
            i <= ninsts,
            ar.opos == i,
            o == out,
            *vcode == v,
            pass_inv(v, o, ar, code, bb, stack_size, saved, i as int, epos as int),
            ar.pos as int == crate::vcode::consumed_before(v.insts@, i as int),
            crate::solver::certified_upto(v, o, i as int),
            saved == filter_clobbered(callee_saved_list(), v, o),
            stack_size as int == spec_stack_size(
                v.spills@,
                o.num_spillslots as int,
                saved.len() as int,
            ),
            ar.spill_map@ == spec_spill_map(
                v.spills@,
                o.num_spillslots as int,
                saved.len() as int,
            ),
            epos as int == epos_at(o.edits@, i as int),
            seq_eq_mod_short(code.code.insts@, stream_upto(v, o, i as int)),
            forall|k: int|
                epos <= k < o.edits@.len()
                    ==> crate::solver::pt_ord((#[trigger] o.edits@[k]).0) >= 2 * i,
            forall|k: int|
                0 <= k < epos
                    ==> !((#[trigger] o.edits@[k]).1.from is Stack && o.edits@[k].1.to is Stack),
            forall|b: int|
                0 <= b < bb.cur ==> (#[trigger] code.code.blocks@[b]).0 as int == (if b == 0 {
                    0int
                } else {
                    stream_upto(v, o, v.blocks@[b].0 as int).len() as int
                }) && code.code.blocks@[b].1 as int == stream_upto(
                    v,
                    o,
                    v.blocks@[b].1 as int,
                ).len() as int,
            bb.cur > 0 ==> bb.start as int == stream_upto(
                v,
                o,
                v.blocks@[bb.cur as int].0 as int,
            ).len() as int,
        decreases ninsts - i,
    {
        let ghost insts_before = code.code.insts@;
        let ghost e_before = epos;
        let ghost stream_i = stream_upto(v, o, i as int);
        let ghost bbn = bb.next;
        let ghost bbc = bb.cur;
        let ghost blocks_before = code.code.blocks@;
        match step(
            vcode,
            &edits,
            &mut code,
            &mut ar,
            &mut bb,
            &mut epos,
            i,
            stack_size,
            &saved_regs,
            Ghost(o),
        ) {
            Ok(()) => {},
            Err(e) => {
                proof {
                    if crate::solver::clean(v, o) {
                        assert(crate::solver::inst_checked(v, o, i as int));
                        assert(false);
                    }
                }
                return Err(e);
            },
        }
        proof {
            if bbn == i {
                assert(v.blocks@[bbc as int].1 == i);
                assert(code.code.blocks@ == blocks_before.push(
                    (code.code.blocks@[bbc as int].0, code.code.blocks@[bbc as int].1),
                ));
                assert(code.code.blocks@[bbc as int].1 as int == insts_before.len() as int);
                assert(insts_before.len() == stream_i.len());
                if bbc + 1 < nblocks_v {
                    assert(v.blocks@[bbc as int + 1].0 == v.blocks@[bbc as int].1);
                }
            }
            lemma_certified_extend(v, o, i as int);
            let olds = stream_i;
            let mid = run_end(o.edits@, e_before as int, ProgPoint::spec_before(i));
            assert(epos as int == run_end(o.edits@, mid, ProgPoint::spec_after(i)));
            assert(epos as int == epos_at(o.edits@, i as int + 1));
            let aseg = edits_insts(o.edits@, e_before as int, mid, v.spills@[1]);
            let bseg = lowered_insts(
                v,
                i as int,
                o.allocs@,
                crate::vcode::consumed_before(v.insts@, i as int),
                spec_spill_map(v.spills@, o.num_spillslots as int, saved.len() as int),
                saved,
                stack_size,
            );
            let cseg = edits_insts(o.edits@, mid, epos as int, v.spills@[1]);
            assert(seq_eq_mod_short(code.code.insts@, insts_before + aseg + bseg + cseg));
            assert(stream_upto(v, o, i as int + 1) == stream_upto(v, o, i as int) + aseg + bseg
                + cseg) by {
                assert(stack_size == ((spec_stack_size(
                    v.spills@,
                    o.num_spillslots as int,
                    saved.len() as int,
                )) as usize));
            }
            lemma_emod_refl(aseg);
            lemma_emod_refl(bseg);
            lemma_emod_refl(cseg);
            lemma_emod_concat(insts_before, aseg, stream_upto(v, o, i as int), aseg);
            lemma_emod_concat(insts_before + aseg, bseg, stream_upto(v, o, i as int) + aseg, bseg);
            lemma_emod_concat(
                insts_before + aseg + bseg,
                cseg,
                stream_upto(v, o, i as int) + aseg + bseg,
                cseg,
            );
            lemma_emod_trans(
                code.code.insts@,
                insts_before + aseg + bseg + cseg,
                stream_upto(v, o, i as int) + aseg + bseg + cseg,
            );
        }
        i = i + 1;
    }
    proof {
        if (epos as int) < o.edits@.len() {
            assert(crate::solver::pt_ord(o.edits@[epos as int].0) >= 2 * ninsts);
            assert(o.edits@[epos as int].0.inst < ninsts);
            assert(false);
        }
    }
    let (abi, pc) = finish_pass(
        code,
        bb,
        vcode,
        saved_regs,
        caller_clobbers,
        stack_size,
        Ghost(o),
        Ghost(saved),
        Ghost(ar),
        Ghost(epos as int),
    );
    Ok((abi, pc))
}

} // verus!
