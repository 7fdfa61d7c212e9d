use mmcc::doclayout::{DocEnv, LExpr, LayoutProof, LayoutResult, Line, LineKind, Mangler};

fn env_of(names: &[&str]) -> DocEnv {
    DocEnv { thm_names: names.iter().map(|s| s.as_bytes().to_vec()).collect() }
}

/// The first holder of each case-folded name keeps its own name; later
/// holders are numbered, and numbers are stable on repeated queries.
#[test]
fn mangle_disambiguates_case_insensitively() {
    let env = env_of(&["Foo", "foo", "bar", "FOO"]);
    let mut m = Mangler::new();
    assert_eq!(m.mangle(&env, 0), b"Foo".to_vec());
    assert_eq!(m.mangle(&env, 1), b"foo.1".to_vec());
    assert_eq!(m.mangle(&env, 2), b"bar".to_vec());
    assert_eq!(m.mangle(&env, 3), b"FOO.2".to_vec());
    // memoized: asking again gives the same answers
    assert_eq!(m.mangle(&env, 1), b"foo.1".to_vec());
    assert_eq!(m.mangle(&env, 0), b"Foo".to_vec());
}

/// Numbers keep counting past nine, rendering multi-digit suffixes.
#[test]
fn mangle_two_digit_numbers() {
    let names: Vec<String> = (0..13).map(|i| if i % 2 == 0 { "x".to_string() } else { "X".to_string() }).collect();
    let refs: Vec<&str> = names.iter().map(|s| s.as_str()).collect();
    let env = env_of(&refs);
    let mut m = Mangler::new();
    for t in 0..12 {
        m.mangle(&env, t);
    }
    assert_eq!(m.mangle(&env, 12), b"x.12".to_vec());
}

/// Distinct case-folded names never collide on numbers independently.
#[test]
fn mangle_independent_names() {
    let env = env_of(&["alpha", "beta", "Alpha", "Beta"]);
    let mut m = Mangler::new();
    assert_eq!(m.mangle(&env, 0), b"alpha".to_vec());
    assert_eq!(m.mangle(&env, 1), b"beta".to_vec());
    assert_eq!(m.mangle(&env, 2), b"Alpha.1".to_vec());
    assert_eq!(m.mangle(&env, 3), b"Beta.1".to_vec());
}

/// Lines are numbered in push order.
#[test]
fn push_line_numbers_in_order() {
    let mut lp = LayoutProof { lines: vec![], rev: false };
    let n0 = lp.push_line(vec![], LineKind::Hyp(None), LExpr::Atom(1));
    let n1 = lp.push_line(vec![n0], LineKind::Thm(7), LExpr::Atom(2));
    assert_eq!(n0, 0);
    assert_eq!(n1, 1);
    assert_eq!(lp.lines.len(), 2);
    assert_eq!(
        lp.lines[1],
        Line { hyps: vec![0], kind: LineKind::Thm(7), expr: LExpr::Atom(2) }
    );
}

/// The projections give back exactly what the result holds.
#[test]
fn layout_result_projections() {
    let e = LayoutResult::Expr(LExpr::List(vec![LExpr::Atom(3), LExpr::Atom(4)]));
    assert_eq!(e.into_expr(), LExpr::List(vec![LExpr::Atom(3), LExpr::Atom(4)]));
    let p = LayoutResult::Proof(9);
    assert_eq!(p.into_proof(), 9);
    let c = LayoutResult::Conv(vec![5, 6]);
    assert_eq!(c.as_conv(), &vec![5, 6]);
    assert_eq!(c.into_conv(), vec![5, 6]);
}
