//! Clobber analysis: the set of physical registers overwritten anywhere in
//! the procedure — by solver-inserted moves, by instructions' intrinsic
//! clobber sets, and by every def or mod operand — minus the registers that
//! carry return values out of the procedure.

use vstd::prelude::*;
use crate::solver::{Alloc, AllocResult, Edit, ProgPoint, wf_alloc_result};
use crate::types::{PReg, PRegSet, NUM_REGS};
use crate::vcode::{wf_vcode, ArgAbi, OpKind, VCode};

verus! {

/// The end of instruction `i`'s allocation window: the next instruction's
/// cumulative count, or the whole list's length for the last instruction.
pub open spec fn window_end(out: AllocResult, i: int) -> int {
    if i + 1 < out.inst_alloc_offsets@.len() {
        out.inst_alloc_offsets@[i + 1] as int
    } else {
        out.allocs@.len() as int
    }
}

/// Whether some edit in the first `n` writes register `r`.
pub open spec fn edit_writes_upto(edits: Seq<(ProgPoint, Edit)>, n: int, r: PReg) -> bool {
    exists|k: int| 0 <= k < n && (#[trigger] edits[k]).1.to == Alloc::Reg(r)
}

/// Whether one of the first `n` instructions' intrinsic clobber sets
/// contains `r`.
pub open spec fn inst_set_clobbers_upto(clobbers: Seq<PRegSet>, n: int, r: PReg) -> bool {
    exists|i: int| 0 <= i < n && (#[trigger] clobbers[i]).spec_has(r)
}

/// Whether operand `k` of instruction `i` is a def or mod operand whose
/// allocation resolved to register `r`.
pub open spec fn op_writes(v: VCode, out: AllocResult, i: int, k: int, r: PReg) -> bool {
    &&& 0 <= k < v.operands@[i].len()
    &&& out.inst_alloc_offsets@[i] + k < window_end(out, i)
    &&& v.operands@[i][k] != OpKind::Use
    &&& out.allocs@[out.inst_alloc_offsets@[i] + k] == Alloc::Reg(r)
}

/// Whether a def or mod operand of one of the first `n` instructions
/// resolved to register `r`.
pub open spec fn op_writes_upto(v: VCode, out: AllocResult, n: int, r: PReg) -> bool {
    exists|i: int, k: int| 0 <= i < n && #[trigger] op_writes(v, out, i, k, r)
}

/// Whether `r` carries a return value out of the procedure.
pub open spec fn is_ret_reg(v: VCode, r: PReg) -> bool {
    match v.abi.rets {
        Some(rs) => exists|k: int|
            0 <= k < rs@.len() && ((#[trigger] rs@[k]) matches ArgAbi::Reg(q, _) && q == r),
        None => false,
    }
}

/// Whether the procedure overwrites register `r` anywhere: by an edit, an
/// intrinsic clobber set, or a def/mod operand — unless `r` must still hold
/// a return value at exit.
pub open spec fn is_clobbered(v: VCode, out: AllocResult, r: PReg) -> bool {
    &&& edit_writes_upto(out.edits@, out.edits@.len() as int, r)
        || inst_set_clobbers_upto(v.clobbers@, v.clobbers@.len() as int, r)
        || op_writes_upto(v, out, v.insts@.len() as int, r)
    &&& !is_ret_reg(v, r)
}

/// Computes the procedure's full clobber set. From it the caller selects
/// which callee-saved registers the prologue must save and which
/// caller-saved registers to report to this procedure's own callers.
pub fn get_clobbers(vcode: &VCode, out: &AllocResult) -> (result: PRegSet)
    requires
        wf_vcode(*vcode),
        wf_alloc_result(*out, *vcode),
    ensures
        forall|r: PReg| result.spec_has(r) <==> is_clobbered(*vcode, *out, r),
{
    let ghost v = *vcode;
    let ghost o = *out;
    let mut result = PRegSet::empty();
    let nedits = out.edits.len();
    let mut k: usize = 0;
    while k < nedits
        invariant
            k <= nedits == o.edits@.len(),
            out.edits@ == o.edits@,
            wf_alloc_result(o, v),
            forall|r: PReg| result.spec_has(r) <==> edit_writes_upto(o.edits@, k as int, r),
        decreases nedits - k,
    {
        let (_, e) = out.edits[k];
        let ghost prev = result;
        match e.to {
            Alloc::Reg(rr) => {
                proof {
                    assert(wf_alloc_result(o, v));
                    assert(crate::solver::wf_alloc(o.edits@[k as int].1.to, o.num_spillslots as int));
                }
                result = result.insert(rr);
                proof {
                    assert forall|r: PReg|
                        result.spec_has(r) <==> edit_writes_upto(o.edits@, k as int + 1, r) by {
                        if result.spec_has(r) {
                            if r == rr {
                                assert(o.edits@[k as int].1.to == Alloc::Reg(r));
                            } else {
                                assert(prev.spec_has(r));
                            }
                        }
                        if edit_writes_upto(o.edits@, k as int + 1, r) {
                            let w = choose|w: int|
                                0 <= w < k as int + 1 && (#[trigger] o.edits@[w]).1.to
                                    == Alloc::Reg(r);
                            if w < k as int {
                                assert(edit_writes_upto(o.edits@, k as int, r));
                            } else {
                                assert(r == rr);
                            }
                        }
                    }
                }
            },
            Alloc::Stack(_) => {
                proof {
                    assert forall|r: PReg|
                        result.spec_has(r) <==> edit_writes_upto(o.edits@, k as int + 1, r) by {
                        if edit_writes_upto(o.edits@, k as int + 1, r) {
                            let w = choose|w: int|
                                0 <= w < k as int + 1 && (#[trigger] o.edits@[w]).1.to
                                    == Alloc::Reg(r);
                            assert(w < k as int);
                        }
                    }
                }
            },
        }
        k = k + 1;
    }
    let n_allocs = out.allocs.len();
    let ninsts = vcode.insts.len();
    let mut i: usize = 0;
    while i < ninsts
        invariant
            i <= ninsts == v.insts@.len(),
            n_allocs == o.allocs@.len(),
            *vcode == v,
            *out == o,
            wf_vcode(v),
            wf_alloc_result(o, v),
            forall|r: PReg|
                result.spec_has(r) <==> edit_writes_upto(o.edits@, o.edits@.len() as int, r)
                    || inst_set_clobbers_upto(v.clobbers@, i as int, r)
                    || op_writes_upto(v, o, i as int, r),
        decreases ninsts - i,
    {
        let ghost before_sets = result;
        result = result.union(vcode.clobbers[i]);
        proof {
            assert forall|r: PReg|
                result.spec_has(r) <==> edit_writes_upto(o.edits@, o.edits@.len() as int, r)
                    || inst_set_clobbers_upto(v.clobbers@, i as int + 1, r)
                    || op_writes_upto(v, o, i as int, r) by {
                if result.spec_has(r) {
                    if !before_sets.spec_has(r) {
                        assert(v.clobbers@[i as int].spec_has(r));
                        assert(inst_set_clobbers_upto(v.clobbers@, i as int + 1, r));
                    }
                }
                if inst_set_clobbers_upto(v.clobbers@, i as int + 1, r)
                    && !inst_set_clobbers_upto(v.clobbers@, i as int, r) {
                    let w = choose|w: int|
                        0 <= w < i as int + 1 && (#[trigger] v.clobbers@[w]).spec_has(r);
                    assert(w == i as int);
                    assert(result.spec_has(r));
                }
            }
        }
        let start = out.inst_alloc_offsets[i];
        let endw = if i + 1 < out.inst_alloc_offsets.len() {
            out.inst_alloc_offsets[i + 1]
        } else {
            out.allocs.len()
        };
        proof {
            assert(start <= endw <= o.allocs@.len());
        }
        let width = endw - start;
        let nops = vcode.operands[i].len();
        let mut k: usize = 0;
        while k < nops && k < width
            invariant
                *vcode == v,
                *out == o,
                wf_vcode(v),
                wf_alloc_result(o, v),
                n_allocs == o.allocs@.len(),
                i < v.insts@.len(),
                nops == v.operands@[i as int].len(),
                start == o.inst_alloc_offsets@[i as int],
                start + width == window_end(o, i as int),
                start + width <= o.allocs@.len(),
                k <= nops,
                forall|r: PReg|
                    result.spec_has(r) <==> edit_writes_upto(o.edits@, o.edits@.len() as int, r)
                        || inst_set_clobbers_upto(v.clobbers@, i as int + 1, r)
                        || op_writes_upto(v, o, i as int, r)
                        || (exists|kk: int| 0 <= kk < k && #[trigger] op_writes(v, o, i as int, kk, r)),
            decreases nops - k,
        {
            let ghost before_op = result;
            let kind = vcode.operands[i][k];
            let is_use = match kind {
                OpKind::Use => true,
                _ => false,
            };
            if !is_use {
                assert(start + k < n_allocs);
                match out.allocs[start + k] {
                    Alloc::Reg(rr) => {
                        proof {
                            assert(crate::solver::wf_alloc(
                                o.allocs@[start + k],
                                o.num_spillslots as int,
                            ));
                            assert(op_writes(v, o, i as int, k as int, rr));
                        }
                        result = result.insert(rr);
                    },
                    Alloc::Stack(_) => {},
                }
            }
            proof {
                assert forall|r: PReg|
                    result.spec_has(r) <==> edit_writes_upto(o.edits@, o.edits@.len() as int, r)
                        || inst_set_clobbers_upto(v.clobbers@, i as int + 1, r)
                        || op_writes_upto(v, o, i as int, r)
                        || (exists|kk: int|
                        0 <= kk < k as int + 1 && #[trigger] op_writes(v, o, i as int, kk, r)) by {
                    if result.spec_has(r) && !before_op.spec_has(r) {
                        assert(op_writes(v, o, i as int, k as int, r));
                    }
                    if (exists|kk: int|
                        0 <= kk < k as int + 1 && #[trigger] op_writes(v, o, i as int, kk, r))
                        && !(exists|kk: int|
                        0 <= kk < k as int && #[trigger] op_writes(v, o, i as int, kk, r)) {
                        let w = choose|kk: int|
                            0 <= kk < k as int + 1 && #[trigger] op_writes(v, o, i as int, kk, r);
                        assert(w == k as int);
                        assert(o.allocs@[start + k] == Alloc::Reg(r));
                        assert(v.operands@[i as int][k as int] != OpKind::Use);
                        assert(result.spec_has(r));
                    }
                }
            }
            k = k + 1;
        }
        proof {
            assert forall|r: PReg|
                result.spec_has(r) <==> edit_writes_upto(o.edits@, o.edits@.len() as int, r)
                    || inst_set_clobbers_upto(v.clobbers@, i as int + 1, r)
                    || op_writes_upto(v, o, i as int + 1, r) by {
                if result.spec_has(r) {
                    if (exists|kk: int|
                        0 <= kk < k as int && #[trigger] op_writes(v, o, i as int, kk, r)) {
                        let w = choose|kk: int|
                            0 <= kk < k as int && #[trigger] op_writes(v, o, i as int, kk, r);
                        assert(op_writes(v, o, i as int, w, r));
                        assert(op_writes_upto(v, o, i as int + 1, r));
                    }
                }
                if op_writes_upto(v, o, i as int + 1, r) && !op_writes_upto(v, o, i as int, r)
                    && !result.spec_has(r) {
                    let (wi, wk): (int, int) = choose|wi: int, wk: int|
                        0 <= wi < i as int + 1 && #[trigger] op_writes(v, o, wi, wk, r);
                    assert(wi == i as int);
                    assert(op_writes(v, o, i as int, wk, r));
                    assert(0 <= wk < nops);
                    assert(o.inst_alloc_offsets@[i as int] + wk < window_end(o, i as int));
                    assert(wk < width);
                    assert(wk < k as int);
                    assert(exists|kk: int|
                        0 <= kk < k as int && #[trigger] op_writes(v, o, i as int, kk, r));
                }
            }
        }
        i = i + 1;
    }
    let mut removed = result;
    match &vcode.abi.rets {
        Some(rets) => {
            let nrets = rets.len();
            let mut k: usize = 0;
            while k < nrets
                invariant
                    *vcode == v,
                    wf_vcode(v),
                    v.abi.rets matches Some(rs) && rs@ == rets@,
                    k <= nrets == rets@.len(),
                    forall|r: PReg|
                        removed.spec_has(r) <==> result.spec_has(r) && !(exists|w: int|
                            0 <= w < k && ((#[trigger] rets@[w]) matches ArgAbi::Reg(q, _)
                                && q == r)),
                decreases nrets - k,
            {
                let ghost before_rm = removed;
                match rets[k] {
                    ArgAbi::Reg(rr, _) => {
                        proof {
                            assert(rets@[k as int] matches ArgAbi::Reg(q, _) && q == rr);
                            assert(rr.0 < NUM_REGS);
                        }
                        removed = removed.remove(rr);
                    },
                    ArgAbi::Mem { .. } => {},
                }
                proof {
                    assert forall|r: PReg|
                        removed.spec_has(r) <==> result.spec_has(r) && !(exists|w: int|
                            0 <= w < k as int + 1 && ((#[trigger] rets@[w]) matches ArgAbi::Reg(
                                q,
                                _,
                            ) && q == r)) by {
                        if result.spec_has(r) && !removed.spec_has(r) && before_rm.spec_has(r) {
                            assert(rets@[k as int] matches ArgAbi::Reg(q, _) && q == r);
                        }
                        if (exists|w: int|
                            0 <= w < k as int + 1 && ((#[trigger] rets@[w]) matches ArgAbi::Reg(
                                q,
                                _,
                            ) && q == r)) && !(exists|w: int|
                            0 <= w < k as int && ((#[trigger] rets@[w]) matches ArgAbi::Reg(q, _)
                                && q == r)) {
                            let w = choose|w: int|
                                0 <= w < k as int + 1 && ((#[trigger] rets@[w])
                                    matches ArgAbi::Reg(q, _) && q == r);
                            assert(w == k as int);
                            assert(!removed.spec_has(r));
                        }
                    }
                }
                k = k + 1;
            }
            proof {
                assert forall|r: PReg|
                    removed.spec_has(r) <==> is_clobbered(v, o, r) by {
                    if is_ret_reg(v, r) {
                        let w = choose|w: int|
                            0 <= w < rets@.len() && ((#[trigger] rets@[w]) matches ArgAbi::Reg(
                                q,
                                _,
                            ) && q == r);
                        assert(exists|w: int|
                            0 <= w < k as int && ((#[trigger] rets@[w]) matches ArgAbi::Reg(q, _)
                                && q == r));
                    }
                }
            }
        },
        None => {},
    }
    removed
}

} // verus!
