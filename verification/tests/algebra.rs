use indexmap::IndexMap;

use mago_analysis::algebra::assertion::Assertion;
use mago_analysis::algebra::assertion_set::{add_and_assertion, add_and_clause, add_or_assertion, negate_assertion_set};
use mago_analysis::algebra::clause::Clause;
use mago_analysis::span::Span;

fn is_int() -> Assertion {
    Assertion::IsType("int".to_string())
}

fn not_int() -> Assertion {
    Assertion::IsNotType("int".to_string())
}

fn is_string() -> Assertion {
    Assertion::IsType("string".to_string())
}

/// A valuation that respects negation: the listed assertions hold, their
/// negations fail, and so on.
fn holds(a: &Assertion, truths: &[Assertion]) -> bool {
    if truths.contains(a) {
        return true;
    }
    if truths.contains(&a.get_negation()) {
        return false;
    }
    false
}

fn formula_holds(f: &[Vec<Assertion>], truths: &[Assertion]) -> bool {
    f.iter().all(|c| c.iter().any(|a| holds(a, truths)))
}

#[test]
fn negation_swaps_type_assertions() {
    assert_eq!(is_int().get_negation(), not_int());
    assert_eq!(not_int().get_negation(), is_int());
    assert_eq!(Assertion::Truthy.get_negation(), Assertion::Falsy);
    assert_eq!(Assertion::IsLessThan(3).get_negation(), Assertion::IsGreaterThanOrEqual(3));
    assert_eq!(Assertion::HasExactCount(2).get_negation(), Assertion::DoesNotHaveExactCount(2));
}

#[test]
fn negation_of_assertions_without_opposite_is_any() {
    assert_eq!(Assertion::NonEmptyCountable(false).get_negation(), Assertion::Any);
    assert_eq!(Assertion::NonEmptyCountable(true).get_negation(), Assertion::EmptyCountable);
    assert_eq!(Assertion::IsEqualIsset.get_negation(), Assertion::Any);
    assert_eq!(Assertion::IsLessThanFromBound(4).get_negation(), Assertion::Any);
    assert_eq!(Assertion::Countable.get_negation(), Assertion::NotCountable(true));
    assert_eq!(Assertion::NotCountable(false).get_negation(), Assertion::Countable);
}

#[test]
fn negating_twice_gives_the_assertion_back() {
    let all = vec![
        is_int(),
        not_int(),
        Assertion::Truthy,
        Assertion::IsIsset,
        Assertion::InArray("x".to_string()),
        Assertion::HasArrayKey("k".to_string()),
        Assertion::Empty,
        Assertion::NonEmptyCountable(true),
        Assertion::EmptyCountable,
        Assertion::HasAtLeastCount(2),
        Assertion::IsLessThanOrEqual(-5),
        Assertion::IsGreaterThanVariable("$n".to_string()),
        Assertion::Countable,
        Assertion::NotCountable(true),
    ];
    for a in all {
        assert_eq!(a.get_negation().get_negation(), a);
    }
    // the one exception whose negation is not `Any`
    assert_eq!(Assertion::NotCountable(false).get_negation().get_negation(), Assertion::NotCountable(true));
}

#[test]
fn is_negation_and_type_id() {
    assert!(not_int().is_negation());
    assert!(Assertion::Empty.is_negation());
    assert!(!is_int().is_negation());
    assert!(!Assertion::Any.is_negation());
    assert_eq!(is_int().get_type_id(), Some(&"int".to_string()));
    assert_eq!(Assertion::Truthy.get_type_id(), None);
    assert_eq!(Assertion::Falsy.duplicate(), Assertion::Falsy);
}

#[test]
fn add_or_assertion_to_empty_formula_gives_single_clause() {
    let mut f: Vec<Vec<Assertion>> = vec![];
    add_or_assertion(&mut f, is_int());
    assert_eq!(f, vec![vec![is_int()]]);
}

#[test]
fn add_or_assertion_extends_every_clause() {
    let mut f = vec![vec![is_int()], vec![Assertion::Truthy]];
    add_or_assertion(&mut f, is_string());
    assert_eq!(f, vec![vec![is_int(), is_string()], vec![Assertion::Truthy, is_string()]]);
}

#[test]
fn add_and_assertion_adds_a_clause() {
    let mut f = vec![vec![is_int(), is_string()]];
    add_and_assertion(&mut f, Assertion::Truthy);
    assert_eq!(f, vec![vec![is_int(), is_string()], vec![Assertion::Truthy]]);
}

#[test]
fn add_and_clause_adds_the_disjunction() {
    let mut f = vec![vec![is_int()]];
    add_and_clause(&mut f, &[is_string(), Assertion::Falsy]);
    assert_eq!(f, vec![vec![is_int()], vec![is_string(), Assertion::Falsy]]);
}

#[test]
fn add_and_clause_with_empty_clause_is_false() {
    let mut f = vec![vec![is_int()], vec![is_string()]];
    add_and_clause(&mut f, &[]);
    assert_eq!(f, vec![Vec::<Assertion>::new()]);
}

#[test]
fn negate_distributes_into_cnf() {
    // (int OR string) AND truthy  ==>  (!int OR falsy) AND (!string OR falsy)
    let f = vec![vec![is_int(), is_string()], vec![Assertion::Truthy]];
    let r = negate_assertion_set(f);
    assert_eq!(
        r,
        vec![
            vec![not_int(), Assertion::Falsy],
            vec![Assertion::IsNotType("string".to_string()), Assertion::Falsy],
        ]
    );
}

#[test]
fn negate_of_true_is_false() {
    let r = negate_assertion_set(vec![]);
    assert_eq!(r, vec![Vec::<Assertion>::new()]);
}

#[test]
fn negate_of_false_is_true() {
    let r = negate_assertion_set(vec![vec![]]);
    assert_eq!(r, Vec::<Vec<Assertion>>::new());
    let r = negate_assertion_set(vec![vec![is_int()], vec![]]);
    assert_eq!(r, Vec::<Vec<Assertion>>::new());
}

#[test]
fn negate_yields_complement_on_concrete_valuations() {
    let f = vec![vec![is_int(), is_string()], vec![Assertion::Truthy, Assertion::Empty]];
    let negated = negate_assertion_set(f.clone());
    let atoms = [is_int(), is_string(), Assertion::Truthy, Assertion::Empty];
    for mask in 0..16u32 {
        let mut truths = vec![];
        for (i, a) in atoms.iter().enumerate() {
            if mask & (1 << i) != 0 {
                truths.push(a.clone());
            } else {
                truths.push(a.get_negation());
            }
        }
        assert_eq!(formula_holds(&negated, &truths), !formula_holds(&f, &truths));
        for g in [vec![], vec![vec![]], vec![vec![is_int()], vec![]]] {
            assert_eq!(formula_holds(&negate_assertion_set(g.clone()), &truths), !formula_holds(&g, &truths));
        }
    }
}

#[test]
fn or_and_and_laws_on_concrete_valuations() {
    let truths = vec![is_int(), Assertion::Falsy];
    let f = vec![vec![is_string()], vec![Assertion::Truthy]];
    let mut g = f.clone();
    add_or_assertion(&mut g, is_int());
    assert_eq!(formula_holds(&g, &truths), formula_holds(&f, &truths) || holds(&is_int(), &truths));
    let mut h = f.clone();
    add_and_assertion(&mut h, is_int());
    assert_eq!(formula_holds(&h, &truths), formula_holds(&f, &truths) && holds(&is_int(), &truths));
}

fn assertions(entries: &[(u64, Assertion)]) -> IndexMap<u64, Assertion> {
    let mut m = IndexMap::new();
    for (k, a) in entries {
        m.insert(*k, a.clone());
    }
    m
}

fn span(start: u32, end: u32) -> Span {
    Span::new(7, start, end)
}

fn clause(vars: &[(&str, &[(u64, Assertion)])], wedge: Option<bool>) -> Clause {
    let mut p = IndexMap::new();
    for (v, es) in vars {
        p.insert(v.to_string(), assertions(es));
    }
    Clause::new(p, span(1, 2), span(10, 20), wedge, None, None)
}

#[test]
fn wedge_clause_is_hashed_by_span() {
    let c = clause(&[("$a", &[(1, is_int())])], Some(true));
    assert_eq!(c.hash, 10 + 20 + 100000);
    assert!(c.wedge);
    assert!(c.reconcilable);
    assert!(!c.generated);
    let mut p = IndexMap::new();
    p.insert("$a".to_string(), assertions(&[(1, is_int())]));
    let u = Clause::new(p, span(1, 2), span(u32::MAX, 5), None, Some(false), Some(true));
    assert_eq!(u.hash, 4);
    assert!(u.generated);
    // wedges over the same span are equal whatever they hold
    let other = clause(&[("$b", &[(7, Assertion::Falsy)])], Some(true));
    assert!(c == other);
}

#[test]
fn equal_possibilities_hash_alike_and_compare_equal() {
    let a = clause(&[("$a", &[(1, is_int())]), ("$b", &[(2, Assertion::Truthy)])], None);
    let b = clause(&[("$a", &[(1, is_int())]), ("$b", &[(2, Assertion::Truthy)])], None);
    assert_eq!(a.hash, b.hash);
    assert!(a == b);
    let c = a.clone();
    assert_eq!(c.possibilities, a.possibilities);
    assert_eq!(c.hash, a.hash);
}

#[test]
fn assertion_keys_go_into_the_hash() {
    let a = clause(&[("$a", &[(1, is_int())])], None);
    let b = clause(&[("$a", &[(2, is_int())])], None);
    let c = clause(&[("$b", &[(1, is_int())])], None);
    assert!(a.hash != b.hash);
    assert!(a.hash != c.hash);
}

#[test]
fn contains_checks_variables_and_keys() {
    let big = clause(&[("$a", &[(1, is_int()), (2, is_string())]), ("$b", &[(3, Assertion::Truthy)])], None);
    let small = clause(&[("$a", &[(2, is_string())])], None);
    let other = clause(&[("$a", &[(4, Assertion::Falsy)])], None);
    let wider = clause(&[("$a", &[(1, is_int())]), ("$b", &[(3, Assertion::Truthy)]), ("$c", &[])], None);
    assert!(big.contains(&small));
    assert!(big.contains(&big));
    assert!(!small.contains(&big));
    assert!(!big.contains(&other));
    assert!(!big.contains(&wider));
}

#[test]
fn containment_is_reflexive_and_transitive() {
    let a = clause(&[("$a", &[(1, is_int()), (2, is_string())]), ("$b", &[(3, Assertion::Truthy), (5, Assertion::Falsy)])], None);
    let b = clause(&[("$a", &[(2, is_string())]), ("$b", &[(5, Assertion::Falsy)])], None);
    let c = clause(&[("$b", &[(5, Assertion::Falsy)])], None);
    for x in [&a, &b, &c] {
        assert!(x.contains(x));
    }
    assert!(a.contains(&b));
    assert!(b.contains(&c));
    assert!(a.contains(&c));
    assert!(!c.contains(&a));
}

#[test]
fn remove_and_add_possibilities() {
    let c = clause(&[("$a", &[(1, is_int())]), ("$b", &[(3, Assertion::Truthy)])], None);
    let r = c.remove_possibilities(&"$a".to_string()).unwrap();
    assert_eq!(r.possibilities.keys().cloned().collect::<Vec<_>>(), vec!["$b".to_string()]);
    assert_eq!(r.span, c.span);
    let single = clause(&[("$a", &[(1, is_int())])], None);
    assert!(single.remove_possibilities(&"$a".to_string()).is_none());
    let added = c.add_possibility("$c".to_string(), assertions(&[(9, Assertion::Empty)]));
    assert_eq!(
        added.possibilities.keys().cloned().collect::<Vec<_>>(),
        vec!["$a".to_string(), "$b".to_string(), "$c".to_string()]
    );
    let replaced = c.add_possibility("$a".to_string(), assertions(&[(5, Assertion::Falsy)]));
    assert_eq!(replaced.possibilities.keys().cloned().collect::<Vec<_>>(), vec!["$a".to_string(), "$b".to_string()]);
    assert_eq!(replaced.possibilities["$a"].get(&5), Some(&Assertion::Falsy));
}

#[test]
fn removal_is_contained_and_undoes_an_addition() {
    let c = clause(&[("$a", &[(1, is_int())]), ("$b", &[(3, Assertion::Truthy), (4, Assertion::Empty)])], None);
    let without_b = c.remove_possibilities(&"$b".to_string()).unwrap();
    assert!(c.contains(&without_b));
    for v in ["$a", "$b", "$c"] {
        let added = c.add_possibility(v.to_string(), assertions(&[(8, Assertion::Falsy)]));
        let after = added.remove_possibilities(&v.to_string()).map(|r| r.possibilities);
        let direct = c.remove_possibilities(&v.to_string()).map(|r| r.possibilities);
        assert_eq!(after, direct);
    }
}

#[test]
fn impossibilities_are_the_negations() {
    let c = clause(&[("$a", &[(1, is_int()), (2, Assertion::Truthy)]), ("$b", &[]), ("$c", &[(3, Assertion::Empty)])], None);
    let r = c.get_impossibilities();
    assert_eq!(r.len(), 2);
    assert_eq!(r.get("$a"), Some(&vec![not_int(), Assertion::Falsy]));
    assert_eq!(r.get("$c"), Some(&vec![Assertion::NonEmpty]));
    assert_eq!(r.get("$b"), None);
    // keyed by variable id, whatever the clause's order
    let d = clause(&[("$z", &[(1, is_int())]), ("$m", &[(2, Assertion::Truthy)])], None);
    let entries = d.get_impossibilities().into_entries();
    assert_eq!(
        entries,
        vec![("$m".to_string(), vec![Assertion::Falsy]), ("$z".to_string(), vec![not_int()])]
    );
}

#[test]
fn clause_text() {
    let c = clause(&[("$a", &[(1, is_int()), (2, Assertion::Falsy)]), ("$b", &[(3, Assertion::Truthy)])], None);
    assert_eq!(c.to_string(), "(($a is int) || (!$a)) || ($b)");
    let single = clause(&[("$a", &[(1, not_int())])], None);
    assert_eq!(single.to_string(), "$a is not int");
    let expr = clause(&[("*123", &[(1, Assertion::Any)])], None);
    assert_eq!(expr.to_string(), "<expr> is any");
    let other = clause(&[("$n", &[(1, Assertion::IsLessThan(-5)), (2, Assertion::HasExactCount(12))])], None);
    assert_eq!(other.to_string(), "(is-less-than--5) || (has-exactly-12)");
    let empty = Clause::new(IndexMap::new(), span(0, 0), span(0, 0), None, None, None);
    assert_eq!(empty.to_string(), "<empty>");
}

#[test]
fn assertion_atoms() {
    assert_eq!(Assertion::HasArrayKey("'k'".to_string()).to_atom(), "=has-array-key-'k'");
    assert_eq!(Assertion::IsGreaterThanOrEqual(i64::MIN).to_atom(), "is-greater-than-or-equal--9223372036854775808");
    assert_eq!(Assertion::DoesNotHasAtLeastCount(0).to_atom(), "has-at-most-0");
    assert_eq!(Assertion::NonEmptyCountable(false).to_atom(), "=non-empty-countable");
    assert_eq!(Assertion::IsNotEqual("int".to_string()).to_atom(), "!~int");
    assert_eq!(Assertion::IsType("int".to_string()).to_atom(), "int");
}
