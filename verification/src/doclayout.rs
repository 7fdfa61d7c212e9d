//! Layout data for rendered proof tables, and case-insensitive name
//! mangling: theorems that share a name up to ASCII case get distinct
//! numbered page names.

use vstd::prelude::*;

verus! {

/// A laid-out expression: an atom, or an application list.
#[derive(PartialEq, Eq, Debug)]
pub enum LExpr {
    Atom(u32),
    List(Vec<LExpr>),
}

/// What kind of step one proof line is: a hypothesis (possibly named), a
/// theorem application, or a conversion unfolding the listed definitions.
#[derive(PartialEq, Eq, Debug)]
pub enum LineKind {
    Hyp(Option<u32>),
    Thm(u32),
    Conv(Vec<u32>),
}

/// One line of a laid-out proof: the lines it depends on, its kind, and
/// the expression it establishes.
#[derive(PartialEq, Eq, Debug)]
pub struct Line {
    pub hyps: Vec<u32>,
    pub kind: LineKind,
    pub expr: LExpr,
}

/// What laying out one proof node produces: an expression, the number of
/// the proof line it became, or the definitions a conversion unfolds.
#[derive(PartialEq, Eq, Debug)]
pub enum LayoutResult {
    Expr(LExpr),
    Proof(u32),
    Conv(Vec<u32>),
}

impl LayoutResult {
    /// The expression this result holds; only an expression result may be
    /// asked for one.
    pub fn into_expr(self) -> (e: LExpr)
        requires
            self is Expr,
        ensures
            self == LayoutResult::Expr(e),
    {
        match self {
            LayoutResult::Expr(e) => e,
            _ => {
                proof {
                    assert(false);
                }
                LExpr::Atom(0)
            },
        }
    }

    /// The proof-line number this result holds.
    pub fn into_proof(self) -> (n: u32)
        requires
            self is Proof,
        ensures
            self == LayoutResult::Proof(n),
    {
        match self {
            LayoutResult::Proof(n) => n,
            _ => {
                proof {
                    assert(false);
                }
                0
            },
        }
    }

    /// The unfolded-definition list this result holds.
    pub fn into_conv(self) -> (v: Vec<u32>)
        requires
            self is Conv,
        ensures
            self == LayoutResult::Conv(v),
    {
        match self {
            LayoutResult::Conv(v) => v,
            _ => {
                proof {
                    assert(false);
                }
                Vec::new()
            },
        }
    }

    /// Borrows the unfolded-definition list this result holds.
    pub fn as_conv(&self) -> (v: &Vec<u32>)
        requires
            self is Conv,
        ensures
            *self == LayoutResult::Conv(*v),
    {
        match self {
            LayoutResult::Conv(v) => v,
            _ => {
                proof {
                    assert(false);
                }
                vstd::pervasive::unreached()
            },
        }
    }
}

/// A proof-table accumulator: the lines laid out so far, and whether the
/// table is rendered in reverse (pre-order) numbering.
#[derive(PartialEq, Eq, Debug)]
pub struct LayoutProof {
    pub lines: Vec<Line>,
    pub rev: bool,
}

impl LayoutProof {
    /// Appends one line and returns its number.
    pub fn push_line(&mut self, hyps: Vec<u32>, kind: LineKind, expr: LExpr) -> (n: u32)
        requires
            old(self).lines@.len() < 0xFFFF_FFFF,
        ensures
            n == old(self).lines@.len(),
            final(self).lines@ == old(self).lines@.push(Line { hyps, kind, expr }),
            final(self).rev == old(self).rev,
    {
        let n = self.lines.len() as u32;
        self.lines.push(Line { hyps, kind, expr });
        n
    }
}

/// The theorem names a documentation build works over: `thm_names[t]` is
/// the name of theorem `t`, as bytes.
#[derive(Clone, PartialEq, Eq, Debug)]
pub struct DocEnv {
    pub thm_names: Vec<Vec<u8>>,
}

/// The ASCII-lowercase form of one byte.
pub open spec fn lower_byte(b: u8) -> u8 {
    if 65 <= b <= 90 {
        (b + 32) as u8
    } else {
        b
    }
}

/// The ASCII-lowercase form of a byte string: the key under which names
/// collide.
pub open spec fn lower_seq(s: Seq<u8>) -> Seq<u8> {
    s.map_values(|b: u8| lower_byte(b))
}

/// ASCII-lowercases a name.
fn lower_vec(v: &Vec<u8>) -> (r: Vec<u8>)
    ensures
        r@ =~= lower_seq(v@),
{
    let mut r: Vec<u8> = Vec::new();
    let mut k: usize = 0;
    while k < v.len()
        invariant
            k <= v@.len(),
            r@ =~= lower_seq(v@.subrange(0, k as int)),
        decreases v@.len() - k,
    {
        let b = v[k];
        if 65 <= b && b <= 90 {
            r.push(b + 32);
        } else {
            r.push(b);
        }
        proof {
            assert(r@ =~= lower_seq(v@.subrange(0, k + 1)));
        }
        k = k + 1;
    }
    proof {
        assert(v@.subrange(0, v@.len() as int) =~= v@);
    }
    r
}

/// Whether two byte strings are equal.
fn bytes_eq(a: &Vec<u8>, b: &Vec<u8>) -> (r: bool)
    ensures
        r <==> a@ =~= b@,
{
    if a.len() != b.len() {
        return false;
    }
    let mut k: usize = 0;
    while k < a.len()
        invariant
            a@.len() == b@.len(),
            k <= a@.len(),
            forall|j: int| 0 <= j < k ==> a@[j] == b@[j],
        decreases a@.len() - k,
    {
        if a[k] != b[k] {
            return false;
        }
        k = k + 1;
    }
    proof {
        assert(a@ =~= b@);
    }
    true
}

/// The number recorded for theorem `tid`, if one was assigned.
pub open spec fn find_thm(thms: Seq<(u32, usize)>, tid: u32) -> Option<usize>
    decreases thms.len(),
{
    if thms.len() == 0 {
        None
    } else if thms[0].0 == tid {
        Some(thms[0].1)
    } else {
        find_thm(thms.drop_first(), tid)
    }
}

/// The highest number handed out so far for a lowercase name, if any.
pub open spec fn find_used(used: Seq<(Vec<u8>, usize)>, key: Seq<u8>) -> Option<usize>
    decreases used.len(),
{
    if used.len() == 0 {
        None
    } else if used[0].0@ == key {
        Some(used[0].1)
    } else {
        find_used(used.drop_first(), key)
    }
}

/// Looking past a non-matching head leaves a theorem lookup unchanged.
proof fn lemma_find_thm_skip(thms: Seq<(u32, usize)>, tid: u32, k: int)
    requires
        0 <= k < thms.len(),
        forall|j: int| 0 <= j < k ==> (#[trigger] thms[j]).0 != tid,
    ensures
        find_thm(thms, tid) == find_thm(thms.skip(k), tid),
    decreases k,
{
    if k > 0 {
        lemma_find_thm_skip(thms, tid, k - 1);
        assert(thms.skip(k - 1).drop_first() =~= thms.skip(k));
        assert(thms.skip(k - 1)[0] == thms[k - 1]);
    } else {
        assert(thms.skip(0) =~= thms);
    }
}

/// Looking past a non-matching head leaves a name lookup unchanged.
proof fn lemma_find_used_skip(used: Seq<(Vec<u8>, usize)>, key: Seq<u8>, k: int)
    requires
        0 <= k < used.len(),
        forall|j: int| 0 <= j < k ==> (#[trigger] used[j]).0@ != key,
    ensures
        find_used(used, key) == find_used(used.skip(k), key),
    decreases k,
{
    if k > 0 {
        lemma_find_used_skip(used, key, k - 1);
        assert(used.skip(k - 1).drop_first() =~= used.skip(k));
        assert(used.skip(k - 1)[0] == used[k - 1]);
    } else {
        assert(used.skip(0) =~= used);
    }
}

/// A lookup over entries none of which match comes up empty.
proof fn lemma_find_thm_none(thms: Seq<(u32, usize)>, tid: u32)
    requires
        forall|j: int| 0 <= j < thms.len() ==> (#[trigger] thms[j]).0 != tid,
    ensures
        find_thm(thms, tid) is None,
    decreases thms.len(),
{
    if thms.len() > 0 {
        assert(thms[0].0 != tid);
        assert forall|j: int| 0 <= j < thms.drop_first().len()
            implies (#[trigger] thms.drop_first()[j]).0 != tid by {
            assert(thms.drop_first()[j] == thms[j + 1]);
        }
        lemma_find_thm_none(thms.drop_first(), tid);
    }
}

/// A name lookup over entries none of which match comes up empty.
proof fn lemma_find_used_none(used: Seq<(Vec<u8>, usize)>, key: Seq<u8>)
    requires
        forall|j: int| 0 <= j < used.len() ==> (#[trigger] used[j]).0@ != key,
    ensures
        find_used(used, key) is None,
    decreases used.len(),
{
    if used.len() > 0 {
        assert(used[0].0@ != key);
        assert forall|j: int| 0 <= j < used.drop_first().len()
            implies (#[trigger] used.drop_first()[j]).0@ != key by {
            assert(used.drop_first()[j] == used[j + 1]);
        }
        lemma_find_used_none(used.drop_first(), key);
    }
}

/// The decimal digits of `n`, most significant first.
pub open spec fn dec_digits(n: int) -> Seq<u8>
    decreases n,
{
    if n < 10 {
        seq![(48 + if n >= 0 { n } else { 0 }) as u8]
    } else {
        dec_digits(n / 10) + seq![(48 + n % 10) as u8]
    }
}

/// Renders `n` in decimal.
fn to_decimal(n: usize) -> (r: Vec<u8>)
    ensures
        r@ =~= dec_digits(n as int),
    decreases n,
{
    if n < 10 {
        let mut r: Vec<u8> = Vec::new();
        r.push(48 + n as u8);
        r
    } else {
        let mut r = to_decimal(n / 10);
        r.push(48 + (n % 10) as u8);
        proof {
            assert(r@ =~= dec_digits(n as int / 10) + seq![(48 + n as int % 10) as u8]);
        }
        r
    }
}

/// The page name for a theorem named `name` that received number `n`:
/// the name itself for the first holder of each case-folded name, and
/// `name.n` for later ones.
pub open spec fn spec_mangled(name: Seq<u8>, n: int) -> Seq<u8> {
    if n == 0 {
        name
    } else {
        name + seq![46u8] + dec_digits(n)
    }
}

/// Copies a byte string.
fn copy_bytes(v: &Vec<u8>) -> (r: Vec<u8>)
    ensures
        r@ =~= v@,
{
    let mut r: Vec<u8> = Vec::new();
    let mut k: usize = 0;
    while k < v.len()
        invariant
            k <= v@.len(),
            r@ =~= v@.subrange(0, k as int),
        decreases v@.len() - k,
    {
        r.push(v[k]);
        proof {
            assert(r@ =~= v@.subrange(0, k + 1));
        }
        k = k + 1;
    }
    proof {
        assert(v@.subrange(0, v@.len() as int) =~= v@);
    }
    r
}

/// Assigns each theorem a stable number among the theorems sharing its
/// ASCII-case-folded name: the first holder of a name gets 0, later
/// holders count up. Numbers, once assigned, never change.
#[derive(Clone, PartialEq, Eq, Debug)]
pub struct Mangler {
    /// Per case-folded name, the highest number assigned for it.
    pub used: Vec<(Vec<u8>, usize)>,
    /// Per theorem already seen, its assigned number.
    pub thms: Vec<(u32, usize)>,
}

impl Mangler {
    /// A mangler with nothing assigned.
    pub fn new() -> (m: Mangler)
        ensures
            m.used@.len() == 0,
            m.thms@.len() == 0,
    {
        Mangler { used: Vec::new(), thms: Vec::new() }
    }

    /// Every recorded count is covered by a theorem entry, so counts
    /// cannot outrun the theorem table.
    pub open spec fn wf(self) -> bool {
        forall|j: int| 0 <= j < self.used@.len() ==> (#[trigger] self.used@[j]).1 <= self.thms@.len()
    }

    /// The number for theorem `tid`: the one already recorded, or a fresh
    /// one — zero for the first theorem with this case-folded name, one
    /// past the last otherwise — which is recorded for both the theorem
    /// and the name.
    pub fn get(&mut self, env: &DocEnv, tid: u32) -> (n: usize)
        requires
            old(self).wf(),
            old(self).thms@.len() < 0xFFFF_FFFF,
            (tid as int) < env.thm_names@.len(),
        ensures
            final(self).wf(),
            final(self).thms@.len() <= old(self).thms@.len() + 1,
            final(self).used@.len() <= old(self).used@.len() + 1,
            find_thm(final(self).thms@, tid) == Some(n),
            match find_thm(old(self).thms@, tid) {
                Some(n0) => n == n0 && *final(self) == *old(self),
                None => {
                    let key = lower_seq(env.thm_names@[tid as int]@);
                    &&& n == (match find_used(old(self).used@, key) {
                        Some(c) => c + 1,
                        None => 0,
                    })
                    &&& find_used(final(self).used@, key) == Some(n)
                    &&& forall|t: u32|
                        t != tid ==> #[trigger] find_thm(final(self).thms@, t) == find_thm(
                            old(self).thms@,
                            t,
                        )
                },
            },
    {
        let nthms = self.thms.len();
        let mut k: usize = 0;
        while k < nthms
            invariant
                k <= nthms == self.thms@.len(),
                *self == *old(self),
                self.wf(),
                forall|j: int| 0 <= j < k ==> (#[trigger] self.thms@[j]).0 != tid,
            decreases nthms - k,
        {
            let (t, n) = self.thms[k];
            if t == tid {
                proof {
                    lemma_find_thm_skip(self.thms@, tid, k as int);
                    assert(self.thms@.skip(k as int)[0] == self.thms@[k as int]);
                }
                return n;
            }
            k = k + 1;
        }
        proof {
            lemma_find_thm_none(self.thms@, tid);
        }
        let key = lower_vec(&env.thm_names[tid as usize]);
        let ghost key_s = key@;
        let nused = self.used.len();
        let mut w: usize = 0;
        let mut n: usize = 0;
        let mut found = false;
        let mut at: usize = 0;
        while w < nused && !found
            invariant
                w <= nused == self.used@.len(),
                self.wf(),
                key@ == key_s,
                !found ==> forall|j: int| 0 <= j < w ==> (#[trigger] self.used@[j]).0@ != key_s,
                found ==> at < self.used@.len() && self.used@[at as int].0@ == key_s
                    && n == self.used@[at as int].1 + 1
                    && (forall|j: int| 0 <= j < at ==> (#[trigger] self.used@[j]).0@ != key_s),
                self.thms@ == old(self).thms@,
                self.used@ == old(self).used@,
                self.wf(),
                self.thms@.len() < 0xFFFF_FFFF,
                find_thm(old(self).thms@, tid) is None,
            decreases nused - w, (if found { 0int } else { 1 }),
        {
            let hit = bytes_eq(&self.used[w].0, &key);
            if hit {
                let c = self.used[w].1;
                n = c + 1;
                at = w;
                found = true;
            } else {
                w = w + 1;
            }
        }
        if found {
            proof {
                lemma_find_used_skip(self.used@, key_s, at as int);
                assert(self.used@.skip(at as int)[0] == self.used@[at as int]);
                assert(find_used(self.used@, key_s) == Some((n - 1) as usize));
            }
            let ghost used0 = self.used@;
            let fresh = copy_bytes(&self.used[at].0);
            self.used.set(at, (fresh, n));
            proof {
                assert(self.used@[at as int].0@ =~= key_s);
                assert forall|j: int| 0 <= j < at implies (#[trigger] self.used@[j]).0@
                    != key_s by {
                    assert(self.used@[j] == used0[j]);
                }
                lemma_find_used_skip(self.used@, key_s, at as int);
                assert(self.used@.skip(at as int)[0] == self.used@[at as int]);
                assert(find_used(self.used@, key_s) == Some(n));
            }
        } else {
            proof {
                lemma_find_used_none(self.used@, key_s);
            }
            let ghost used0 = self.used@;
            self.used.push((key, 0));
            proof {
                if used0.len() > 0 {
                    lemma_find_used_skip(self.used@, key_s, used0.len() as int);
                    assert(self.used@.skip(used0.len() as int) =~= seq![
                        self.used@[used0.len() as int],
                    ]);
                    assert(self.used@.skip(used0.len() as int)[0].0@ == key_s);
                    assert forall|j: int| 0 <= j < used0.len()
                        implies (#[trigger] self.used@[j]).0@ != key_s by {
                        assert(self.used@[j] == used0[j]);
                    }
                } else {
                    assert(self.used@[0].0@ == key_s);
                }
                assert(find_used(self.used@, key_s) == Some(0usize));
            }
            n = 0;
        }
        let ghost thms0 = self.thms@;
        self.thms.push((tid, n));
        proof {
            assert forall|j: int| 0 <= j < self.used@.len()
                implies (#[trigger] self.used@[j]).1 <= self.thms@.len() by {}
            assert forall|t: u32| t != tid implies #[trigger] find_thm(self.thms@, t)
                == find_thm(thms0, t) by {
                lemma_find_thm_append_other(thms0, tid, n, t);
            }
            lemma_find_thm_skip(self.thms@, tid, thms0.len() as int);
            assert(self.thms@.skip(thms0.len() as int)[0] == (tid, n));
        }
        n
    }

    /// The page name for theorem `tid`: its own name, or `name.n` when an
    /// earlier theorem already holds the case-folded name.
    pub fn mangle(&mut self, env: &DocEnv, tid: u32) -> (r: Vec<u8>)
        requires
            old(self).wf(),
            old(self).thms@.len() < 0xFFFF_FFFF,
            (tid as int) < env.thm_names@.len(),
        ensures
            final(self).wf(),
            final(self).thms@.len() <= old(self).thms@.len() + 1,
            final(self).used@.len() <= old(self).used@.len() + 1,
            exists|n: int|
                #![auto]
                find_thm(final(self).thms@, tid) == Some(n as usize) && r@ =~= spec_mangled(
                    env.thm_names@[tid as int]@,
                    n,
                ),
    {
        let n = self.get(env, tid);
        let name = &env.thm_names[tid as usize];
        if n == 0 {
            let r = copy_bytes(name);
            proof {
                assert(r@ =~= spec_mangled(env.thm_names@[tid as int]@, 0));
            }
            r
        } else {
            let mut r = copy_bytes(name);
            r.push(46);
            let digits = to_decimal(n);
            let mut k: usize = 0;
            while k < digits.len()
                invariant
                    k <= digits@.len(),
                    r@ =~= name@ + seq![46u8] + digits@.subrange(0, k as int),
                decreases digits@.len() - k,
            {
                r.push(digits[k]);
                proof {
                    assert(r@ =~= name@ + seq![46u8] + digits@.subrange(0, k + 1));
                }
                k = k + 1;
            }
            proof {
                assert(digits@.subrange(0, digits@.len() as int) =~= digits@);
                assert(r@ =~= spec_mangled(env.thm_names@[tid as int]@, n as int));
            }
            r
        }
    }
}

/// Appending an entry for one theorem leaves every other theorem's lookup
/// unchanged.
proof fn lemma_find_thm_append_other(thms: Seq<(u32, usize)>, tid: u32, n: usize, t: u32)
    requires
        t != tid,
    ensures
        find_thm(thms.push((tid, n)), t) == find_thm(thms, t),
    decreases thms.len(),
{
    if thms.len() == 0 {
        assert(thms.push((tid, n))[0] == (tid, n));
        assert(thms.push((tid, n)).drop_first() =~= Seq::<(u32, usize)>::empty());
    } else {
        assert(thms.push((tid, n)).drop_first() =~= thms.drop_first().push((tid, n)));
        lemma_find_thm_append_other(thms.drop_first(), tid, n, t);
        assert(thms.push((tid, n))[0] == thms[0]);
    }
}

} // verus!
