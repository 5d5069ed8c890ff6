use vstd::prelude::*;

use crate::algebra::assertion::Assertion;

verus! {

/// A disjunction ("OR" clause) of items.
pub type Or<T> = Vec<T>;

/// A conjunction ("AND" clause) of items.
pub type And<T> = Vec<T>;

/// A formula in conjunctive normal form: each inner vector is an OR clause and
/// the outer vector is the AND of all of them. The empty formula is `true`;
/// a formula holding an empty clause is `false`.
pub type AssertionSet = And<Or<Assertion>>;

/// The mathematical form of a formula: a sequence of clauses, each a sequence
/// of assertions.
pub open spec fn formula(set: Seq<Vec<Assertion>>) -> Seq<Seq<Assertion>> {
    set.map_values(|c: Vec<Assertion>| c@)
}

/// A clause holds under a valuation when one of its assertions does.
pub open spec fn clause_holds(clause: Seq<Assertion>, v: spec_fn(Assertion) -> bool) -> bool {
    exists|i: int| 0 <= i < clause.len() && v(#[trigger] clause[i])
}

/// A formula holds under a valuation when each of its clauses does.
pub open spec fn formula_holds(f: Seq<Seq<Assertion>>, v: spec_fn(Assertion) -> bool) -> bool {
    forall|i: int| 0 <= i < f.len() ==> clause_holds(#[trigger] f[i], v)
}

/// A conjunction of assertions holds when all of them do.
pub open spec fn conjunction_holds(lits: Seq<Assertion>, v: spec_fn(Assertion) -> bool) -> bool {
    forall|i: int| 0 <= i < lits.len() ==> v(#[trigger] lits[i])
}

/// Each assertion of a clause replaced by its negation.
pub open spec fn negate_clause(clause: Seq<Assertion>) -> Seq<Assertion> {
    clause.map_values(|a: Assertion| a.negation())
}

/// The disjunctive form of the negation of a CNF formula (De Morgan): one
/// conjunction of negated assertions per clause.
pub open spec fn negated_conjunctions(f: Seq<Seq<Assertion>>) -> Seq<Seq<Assertion>>
    decreases f.len(),
{
    if f.len() == 0 {
        seq![]
    } else {
        negated_conjunctions(f.drop_last()).push(negate_clause(f.last()))
    }
}

/// `cnf OR (l_0 AND ... AND l_k)` in conjunctive normal form: for each
/// assertion `l_j` in turn, every clause of `cnf` extended with `l_j`.
pub open spec fn distribute(cnf: Seq<Seq<Assertion>>, lits: Seq<Assertion>) -> Seq<Seq<Assertion>>
    decreases lits.len(),
{
    if lits.len() == 0 {
        seq![]
    } else {
        distribute(cnf, lits.drop_last()) + cnf.map_values(
            |c: Seq<Assertion>| c.push(lits.last()),
        )
    }
}

/// A disjunction of conjunctions in conjunctive normal form, built by
/// distributing each conjunction in turn over the formula so far.
pub open spec fn conjunctions_to_cnf(dnf: Seq<Seq<Assertion>>) -> Seq<Seq<Assertion>>
    decreases dnf.len(),
{
    if dnf.len() <= 1 {
        if dnf.len() == 0 {
            seq![]
        } else {
            dnf[0].map_values(|l: Assertion| seq![l])
        }
    } else {
        distribute(conjunctions_to_cnf(dnf.drop_last()), dnf.last())
    }
}

/// Whether a formula holds an empty clause, which makes it `false`.
pub open spec fn has_empty_clause(f: Seq<Seq<Assertion>>) -> bool {
    exists|i: int| 0 <= i < f.len() && (#[trigger] f[i]).len() == 0
}

/// The formula that `negate_assertion_set` produces: `true` (no clauses) for
/// a formula with an empty clause; else the conjunctive normal form of the
/// disjunction of the negated clauses, or `false` (one empty clause) where
/// there are none.
pub open spec fn negated_formula(f: Seq<Seq<Assertion>>) -> Seq<Seq<Assertion>> {
    let dnf = negated_conjunctions(f);
    if has_empty_clause(f) {
        seq![]
    } else if dnf.len() == 0 {
        seq![seq![]]
    } else {
        conjunctions_to_cnf(dnf)
    }
}

/// A copy of a clause.
fn copy_clause(clause: &Vec<Assertion>) -> (r: Vec<Assertion>)
    ensures
        r@ == clause@,
{
    let mut r: Vec<Assertion> = Vec::new();
    let n = clause.len();
    for i in 0..n
        invariant
            n == clause.len(),
            r@ == clause@.take(i as int),
    {
        r.push(clause[i].duplicate());
        assert(clause@.take(i + 1) == clause@.take(i as int).push(clause@[i as int]));
    }
    assert(clause@.take(n as int) == clause@);
    r
}

/// Applies an `OR` with one assertion to a CNF formula: the assertion is added
/// to every clause, so `(A) AND (B)` becomes `(A OR C) AND (B OR C)`. The empty
/// formula becomes the single clause `(C)`.
pub fn add_or_assertion(possibilities: &mut AssertionSet, assertion: Assertion)
    ensures
        old(possibilities)@.len() == 0 ==> formula(final(possibilities)@) == seq![seq![assertion]],
        old(possibilities)@.len() > 0 ==> formula(final(possibilities)@) == formula(
            old(possibilities)@,
        ).map_values(|c: Seq<Assertion>| c.push(assertion)),
{
    if possibilities.len() == 0 {
        let mut clause: Vec<Assertion> = Vec::new();
        clause.push(assertion);
        possibilities.push(clause);
        assert(formula(possibilities@) =~= seq![seq![assertion]]);
        return;
    }
    let ghost start = formula(possibilities@);
    let n = possibilities.len();
    for i in 0..n
        invariant
            n == possibilities.len(),
            start == formula(old(possibilities)@),
            start.len() == n,
            forall|j: int|
                0 <= j < i ==> (#[trigger] possibilities@[j])@ == start[j].push(assertion),
            forall|j: int| i <= j < n ==> (#[trigger] possibilities@[j])@ == start[j],
    {
        possibilities[i].push(assertion.duplicate());
    }
    assert(formula(possibilities@) =~= start.map_values(|c: Seq<Assertion>| c.push(assertion)));
}

/// Applies an `AND` with one assertion to a CNF formula: the assertion becomes
/// a clause of its own, so `(A OR B)` becomes `(A OR B) AND (C)`.
pub fn add_and_assertion(possibilities: &mut AssertionSet, assertion: Assertion)
    ensures
        formula(final(possibilities)@) == formula(old(possibilities)@).push(seq![assertion]),
{
    let mut clause: Vec<Assertion> = Vec::new();
    clause.push(assertion);
    possibilities.push(clause);
    assert(formula(possibilities@) =~= formula(old(possibilities)@).push(seq![assertion]));
}

/// Applies an `AND` with an `OR` clause to a CNF formula, so `(A OR B)` and
/// `(C OR D)` give `(A OR B) AND (C OR D)`. An empty OR clause is `false`, and
/// the whole formula then becomes the single empty clause.
pub fn add_and_clause(possibilities: &mut Vec<Vec<Assertion>>, or_assertions: &[Assertion])
    ensures
        or_assertions@.len() == 0 ==> formula(final(possibilities)@) == seq![Seq::<Assertion>::empty()],
        or_assertions@.len() > 0 ==> formula(final(possibilities)@) == formula(
            old(possibilities)@,
        ).push(or_assertions@),
{
    if or_assertions.len() == 0 {
        let mut falsum: Vec<Vec<Assertion>> = Vec::new();
        falsum.push(Vec::new());
        *possibilities = falsum;
        assert(formula(possibilities@) =~= seq![Seq::<Assertion>::empty()]);
        return;
    }
    let mut clause: Vec<Assertion> = Vec::new();
    let n = or_assertions.len();
    for i in 0..n
        invariant
            n == or_assertions@.len(),
            clause@ == or_assertions@.take(i as int),
    {
        clause.push(or_assertions[i].duplicate());
        assert(or_assertions@.take(i + 1) == or_assertions@.take(i as int).push(
            or_assertions@[i as int],
        ));
    }
    assert(or_assertions@.take(n as int) == or_assertions@);
    possibilities.push(clause);
    assert(formula(possibilities@) =~= formula(old(possibilities)@).push(or_assertions@));
}

/// Each assertion of a clause negated.
fn negate_clause_exec(clause: &Vec<Assertion>) -> (r: Vec<Assertion>)
    ensures
        r@ == negate_clause(clause@),
{
    let mut r: Vec<Assertion> = Vec::new();
    let n = clause.len();
    for i in 0..n
        invariant
            n == clause.len(),
            r@ == negate_clause(clause@.take(i as int)),
    {
        r.push(clause[i].get_negation());
        assert(negate_clause(clause@.take(i + 1)) =~= negate_clause(clause@.take(i as int)).push(
            clause@[i as int].negation(),
        ));
    }
    assert(clause@.take(n as int) == clause@);
    r
}

proof fn lemma_formula_push(set: Seq<Vec<Assertion>>, c: Vec<Assertion>)
    ensures
        formula(set.push(c)) == formula(set).push(c@),
{
    assert(formula(set.push(c)) =~= formula(set).push(c@));
}

/// Negates a formula in conjunctive normal form with De Morgan's laws:
/// `(A OR B) AND C` becomes the disjunction `(NOT A AND NOT B) OR (NOT C)`,
/// which is then turned back into conjunctive normal form by distributing
/// each conjunction over the formula built so far. A formula with an empty
/// clause is `false`, so its negation is `true`, the formula without clauses;
/// the negation of `true` (no clauses) is `false`, the single empty clause.
pub fn negate_assertion_set(assertion_set: AssertionSet) -> (r: AssertionSet)
    ensures
        formula(r@) == negated_formula(formula(assertion_set@)),
{
    let ghost f = formula(assertion_set@);
    let n = assertion_set.len();
    for i in 0..n
        invariant
            n == assertion_set.len(),
            f == formula(assertion_set@),
            forall|j: int| 0 <= j < i ==> (#[trigger] f[j]).len() > 0,
    {
        if assertion_set[i].len() == 0 {
            assert(f[i as int].len() == 0);
            let verum: Vec<Vec<Assertion>> = Vec::new();
            assert(formula(verum@) =~= Seq::<Seq<Assertion>>::empty());
            return verum;
        }
    }
    assert(!has_empty_clause(f));
    let mut dnf: Vec<Vec<Assertion>> = Vec::new();
    for i in 0..n
        invariant
            n == assertion_set.len(),
            f == formula(assertion_set@),
            !has_empty_clause(f),
            formula(dnf@) == negated_conjunctions(f.take(i as int)),
    {
        let negated = negate_clause_exec(&assertion_set[i]);
        proof {
            assert(f.take(i + 1).drop_last() =~= f.take(i as int));
            assert(f.take(i + 1).last() == assertion_set@[i as int]@);
        }
        proof {
            lemma_formula_push(dnf@, negated);
        }
        dnf.push(negated);
    }
    assert(f.take(n as int) =~= f);
    if dnf.len() == 0 {
        let mut falsum: Vec<Vec<Assertion>> = Vec::new();
        falsum.push(Vec::new());
        assert(formula(falsum@) =~= seq![Seq::<Assertion>::empty()]);
        return falsum;
    }
    let ghost d = formula(dnf@);
    let mut result_cnf: Vec<Vec<Assertion>> = Vec::new();
    let first_len = dnf[0].len();
    for j in 0..first_len
        invariant
            first_len == dnf@[0]@.len(),
            d == formula(dnf@),
            d.len() > 0,
            formula(result_cnf@) == d[0].take(j as int).map_values(|l: Assertion| seq![l]),
    {
        let mut single: Vec<Assertion> = Vec::new();
        single.push(dnf[0][j].duplicate());
        proof {
            lemma_formula_push(result_cnf@, single);
            assert(d[0].take(j + 1).map_values(|l: Assertion| seq![l]) =~= d[0].take(
                j as int,
            ).map_values(|l: Assertion| seq![l]).push(seq![d[0][j as int]]));
        }
        result_cnf.push(single);
    }
    assert(d[0].take(first_len as int) =~= d[0]);
    assert(d.take(1) =~= seq![d[0]]);
    let dn = dnf.len();
    for k in 1..dn
        invariant
            dn == dnf.len(),
            d == formula(dnf@),
            d.len() == dn,
            dn > 0,
            formula(result_cnf@) == conjunctions_to_cnf(d.take(k as int)),
    {
        let ghost prev = formula(result_cnf@);
        let mut next: Vec<Vec<Assertion>> = Vec::new();
        let lits_len = dnf[k].len();
        for j in 0..lits_len
            invariant
                lits_len == dnf@[k as int]@.len(),
                d == formula(dnf@),
                0 < k < dn == d.len(),
                prev == formula(result_cnf@),
                formula(next@) == distribute(prev, d[k as int].take(j as int)),
        {
            let m = result_cnf.len();
            let ghost before = formula(next@);
            for c in 0..m
                invariant
                    m == result_cnf.len(),
                    prev == formula(result_cnf@),
                    d == formula(dnf@),
                    0 < k < dn == d.len(),
                    0 <= j < lits_len == d[k as int].len(),
                    formula(next@) == before + prev.take(c as int).map_values(
                        |cl: Seq<Assertion>| cl.push(d[k as int][j as int]),
                    ),
            {
                let mut new_clause = copy_clause(&result_cnf[c]);
                new_clause.push(dnf[k][j].duplicate());
                proof {
                    lemma_formula_push(next@, new_clause);
                    assert(prev.take(c + 1).map_values(
                        |cl: Seq<Assertion>| cl.push(d[k as int][j as int]),
                    ) =~= prev.take(c as int).map_values(
                        |cl: Seq<Assertion>| cl.push(d[k as int][j as int]),
                    ).push(prev[c as int].push(d[k as int][j as int])));
                }
                next.push(new_clause);
            }
            proof {
                assert(prev.take(m as int) =~= prev);
                let lits = d[k as int].take(j + 1);
                assert(lits.drop_last() =~= d[k as int].take(j as int));
                assert(lits.last() == d[k as int][j as int]);
            }
        }
        proof {
            assert(d[k as int].take(lits_len as int) =~= d[k as int]);
            let t = d.take(k + 1);
            assert(t.drop_last() =~= d.take(k as int));
            assert(t.last() == d[k as int]);
        }
        result_cnf = next;
    }
    assert(d.take(dn as int) =~= d);
    result_cnf
}

// ---------------------------------------------------------------------------
// Semantics
// ---------------------------------------------------------------------------

proof fn lemma_holds_concat(a: Seq<Seq<Assertion>>, b: Seq<Seq<Assertion>>, v: spec_fn(Assertion) -> bool)
    ensures
        formula_holds(a + b, v) == (formula_holds(a, v) && formula_holds(b, v)),
{
    if formula_holds(a, v) && formula_holds(b, v) {
        assert forall|i: int| 0 <= i < (a + b).len() implies clause_holds(#[trigger] (a + b)[i], v) by {
            if i < a.len() {
                assert((a + b)[i] == a[i]);
            } else {
                assert((a + b)[i] == b[i - a.len()]);
            }
        }
    }
    if formula_holds(a + b, v) {
        assert forall|i: int| 0 <= i < a.len() implies clause_holds(#[trigger] a[i], v) by {
            assert((a + b)[i] == a[i]);
        }
        assert forall|i: int| 0 <= i < b.len() implies clause_holds(#[trigger] b[i], v) by {
            assert((a + b)[i + a.len()] == b[i]);
        }
    }
}

proof fn lemma_holds_push_each(cnf: Seq<Seq<Assertion>>, l: Assertion, v: spec_fn(Assertion) -> bool)
    ensures
        formula_holds(cnf.map_values(|c: Seq<Assertion>| c.push(l)), v) == (formula_holds(cnf, v)
            || v(l)),
{
    let ext = cnf.map_values(|c: Seq<Assertion>| c.push(l));
    assert forall|i: int| 0 <= i < cnf.len() implies clause_holds(#[trigger] ext[i], v) == (
    clause_holds(cnf[i], v) || v(l)) by {
        let c = cnf[i];
        assert(ext[i] == c.push(l));
        if v(l) {
            assert(c.push(l)[c.len() as int] == l);
        }
        if clause_holds(c, v) {
            let w = choose|w: int| 0 <= w < c.len() && v(#[trigger] c[w]);
            assert(c.push(l)[w] == c[w]);
        }
        if clause_holds(c.push(l), v) {
            let w = choose|w: int| 0 <= w < c.push(l).len() && v(#[trigger] c.push(l)[w]);
            if w < c.len() {
                assert(c.push(l)[w] == c[w]);
            }
        }
    }
    if !formula_holds(cnf, v) && !v(l) {
        let i = choose|i: int| 0 <= i < cnf.len() && !clause_holds(#[trigger] cnf[i], v);
        assert(!clause_holds(ext[i], v));
    }
}

/// A CNF formula `cnf` with a conjunction `lits` distributed over it holds
/// exactly when `cnf` holds or all of `lits` do.
pub proof fn lemma_distribute_holds(cnf: Seq<Seq<Assertion>>, lits: Seq<Assertion>, v: spec_fn(Assertion) -> bool)
    ensures
        formula_holds(distribute(cnf, lits), v) == (formula_holds(cnf, v) || conjunction_holds(
            lits,
            v,
        )),
    decreases lits.len(),
{
    if lits.len() == 0 {
        assert(formula_holds(distribute(cnf, lits), v));
    } else {
        let rest = lits.drop_last();
        lemma_distribute_holds(cnf, rest, v);
        lemma_holds_concat(
            distribute(cnf, rest),
            cnf.map_values(|c: Seq<Assertion>| c.push(lits.last())),
            v,
        );
        lemma_holds_push_each(cnf, lits.last(), v);
        if conjunction_holds(rest, v) && v(lits.last()) {
            assert forall|i: int| 0 <= i < lits.len() implies v(#[trigger] lits[i]) by {
                if i < rest.len() {
                    assert(rest[i] == lits[i]);
                }
            }
        }
        if conjunction_holds(lits, v) {
            assert forall|i: int| 0 <= i < rest.len() implies v(#[trigger] rest[i]) by {
                assert(rest[i] == lits[i]);
            }
            assert(v(lits[lits.len() - 1]));
        }
    }
}

/// A disjunction of conjunctions holds when one of the conjunctions does.
pub open spec fn dnf_holds(dnf: Seq<Seq<Assertion>>, v: spec_fn(Assertion) -> bool) -> bool {
    exists|i: int| 0 <= i < dnf.len() && conjunction_holds(#[trigger] dnf[i], v)
}

/// The CNF built from a non-empty disjunction of conjunctions is equivalent
/// to it.
pub proof fn lemma_conjunctions_to_cnf_holds(dnf: Seq<Seq<Assertion>>, v: spec_fn(Assertion) -> bool)
    requires
        dnf.len() > 0,
    ensures
        formula_holds(conjunctions_to_cnf(dnf), v) == dnf_holds(dnf, v),
    decreases dnf.len(),
{
    if dnf.len() == 1 {
        let c = conjunctions_to_cnf(dnf);
        let d0 = dnf[0];
        assert(c == d0.map_values(|l: Assertion| seq![l]));
        if formula_holds(c, v) {
            assert forall|i: int| 0 <= i < d0.len() implies v(#[trigger] d0[i]) by {
                assert(clause_holds(c[i], v));
                assert(c[i] == seq![d0[i]]);
                let w = choose|w: int| 0 <= w < c[i].len() && v(#[trigger] c[i][w]);
                assert(w == 0);
            }
            assert(conjunction_holds(dnf[0], v));
        }
        if dnf_holds(dnf, v) {
            let k = choose|k: int| 0 <= k < dnf.len() && conjunction_holds(#[trigger] dnf[k], v);
            assert(k == 0);
            assert forall|i: int| 0 <= i < c.len() implies clause_holds(#[trigger] c[i], v) by {
                assert(c[i] == seq![d0[i]]);
                assert(c[i][0] == d0[i]);
            }
        }
    } else {
        let rest = dnf.drop_last();
        lemma_conjunctions_to_cnf_holds(rest, v);
        lemma_distribute_holds(conjunctions_to_cnf(rest), dnf.last(), v);
        if dnf_holds(dnf, v) {
            let k = choose|k: int| 0 <= k < dnf.len() && conjunction_holds(#[trigger] dnf[k], v);
            if k < rest.len() {
                assert(rest[k] == dnf[k]);
                assert(dnf_holds(rest, v));
            }
        }
        if dnf_holds(rest, v) {
            let k = choose|k: int| 0 <= k < rest.len() && conjunction_holds(#[trigger] rest[k], v);
            assert(rest[k] == dnf[k]);
        }
        if conjunction_holds(dnf.last(), v) {
            assert(conjunction_holds(dnf[dnf.len() - 1], v));
        }
    }
}

/// Evaluating the negated conjunctions under `v` is the same as finding a
/// clause of the formula in which every assertion fails under the valuation
/// that judges an assertion by its negation.
proof fn lemma_negated_conjunctions_holds(f: Seq<Seq<Assertion>>, v: spec_fn(Assertion) -> bool)
    requires
        forall|i: int| 0 <= i < f.len() ==> (#[trigger] f[i]).len() > 0,
    ensures
        negated_conjunctions(f).len() == f.len(),
        dnf_holds(negated_conjunctions(f), v) == !formula_holds(
            f,
            |a: Assertion| !v(a.negation()),
        ),
    decreases f.len(),
{
    let w = |a: Assertion| !v(a.negation());
    if f.len() == 0 {
    } else {
        let rest = f.drop_last();
        assert forall|i: int| 0 <= i < rest.len() implies (#[trigger] rest[i]).len() > 0 by {
            assert(rest[i] == f[i]);
        }
        lemma_negated_conjunctions_holds(rest, v);
        let nr = negated_conjunctions(rest);
        let last = f.last();
        assert(f[f.len() - 1].len() > 0);
        let nl = negate_clause(last);
        assert(negated_conjunctions(f) == nr.push(nl));
        let nf = nr.push(nl);
        // the last conjunction holds iff the last clause fails under w
        assert(conjunction_holds(nl, v) == !clause_holds(last, w)) by {
            if conjunction_holds(nl, v) {
                assert forall|i: int| 0 <= i < last.len() implies !w(#[trigger] last[i]) by {
                    assert(nl[i] == last[i].negation());
                }
            }
            if !clause_holds(last, w) {
                assert forall|i: int| 0 <= i < nl.len() implies v(#[trigger] nl[i]) by {
                    assert(nl[i] == last[i].negation());
                    assert(!w(last[i]));
                }
            }
        }
        if dnf_holds(nf, v) {
            let k = choose|k: int| 0 <= k < nf.len() && conjunction_holds(#[trigger] nf[k], v);
            if k < nr.len() {
                assert(nf[k] == nr[k]);
                assert(dnf_holds(nr, v));
                let j = choose|j: int| 0 <= j < rest.len() && !clause_holds(#[trigger] rest[j], w);
                assert(rest[j] == f[j]);
            } else {
                assert(nf[k] == nl);
                assert(!clause_holds(f[f.len() - 1], w));
            }
        }
        if !formula_holds(f, w) {
            let j = choose|j: int| 0 <= j < f.len() && !clause_holds(#[trigger] f[j], w);
            if j < rest.len() {
                assert(rest[j] == f[j]);
                assert(!formula_holds(rest, w));
                let k = choose|k: int| 0 <= k < nr.len() && conjunction_holds(#[trigger] nr[k], v);
                assert(nf[k] == nr[k]);
            } else {
                assert(nf[nr.len() as int] == nl);
            }
        }
    }
}

/// The negation law (De Morgan): the negated formula holds under a
/// valuation `v` exactly when the given formula fails under the valuation
/// that judges each assertion `a` by `NOT v(negation(a))`. Where `v`
/// respects negation, so that `v(negation(a)) == !v(a)`, this is plain
/// complement.
pub proof fn lemma_negated_formula_holds(f: Seq<Seq<Assertion>>, v: spec_fn(Assertion) -> bool)
    ensures
        formula_holds(negated_formula(f), v) == !formula_holds(
            f,
            |a: Assertion| !v(a.negation()),
        ),
{
    if has_empty_clause(f) {
        let i = choose|i: int| 0 <= i < f.len() && (#[trigger] f[i]).len() == 0;
        assert(!clause_holds(f[i], |a: Assertion| !v(a.negation())));
        assert(negated_formula(f) =~= Seq::<Seq<Assertion>>::empty());
        return;
    }
    lemma_negated_conjunctions_holds(f, v);
    let dnf = negated_conjunctions(f);
    if dnf.len() == 0 {
        assert(f.len() == 0);
        let nf = negated_formula(f);
        assert(nf == seq![Seq::<Assertion>::empty()]);
        assert(!clause_holds(nf[0], v));
    } else {
        lemma_conjunctions_to_cnf_holds(dnf, v);
    }
}

/// The negation law for valuations that respect negation on the formula's
/// assertions: `negate_assertion_set` yields the complement.
pub proof fn lemma_negated_formula_is_complement(f: Seq<Seq<Assertion>>, v: spec_fn(Assertion) -> bool)
    requires
        forall|i: int, j: int|
            0 <= i < f.len() && 0 <= j < f[i].len() ==> v((#[trigger] f[i][j]).negation()) == !v(f[i][j]),
    ensures
        formula_holds(negated_formula(f), v) == !formula_holds(f, v),
{
    lemma_negated_formula_holds(f, v);
    let w = |a: Assertion| !v(a.negation());
    assert forall|i: int| 0 <= i < f.len() implies clause_holds(#[trigger] f[i], w) == clause_holds(
        f[i],
        v,
    ) by {
        let c = f[i];
        assert forall|j: int| 0 <= j < c.len() implies w(#[trigger] c[j]) == v(c[j]) by {
            assert(v(c[j].negation()) == !v(c[j]));
        }
        if clause_holds(c, v) {
            let j = choose|j: int| 0 <= j < c.len() && v(#[trigger] c[j]);
            assert(w(c[j]));
        }
        if clause_holds(c, w) {
            let j = choose|j: int| 0 <= j < c.len() && w(#[trigger] c[j]);
            assert(v(c[j]));
        }
    }
    assert(formula_holds(f, w) == formula_holds(f, v));
}

/// The OR law: on a non-empty formula, `add_or_assertion` yields a formula
/// that holds exactly when the old one holds or the assertion does.
pub proof fn lemma_add_or_holds(f: Seq<Seq<Assertion>>, a: Assertion, v: spec_fn(Assertion) -> bool)
    requires
        f.len() > 0,
    ensures
        formula_holds(f.map_values(|c: Seq<Assertion>| c.push(a)), v) == (formula_holds(f, v) || v(
            a,
        )),
{
    lemma_holds_push_each(f, a, v);
}

/// The AND law: `add_and_assertion` yields a formula that holds exactly when
/// the old one holds and the assertion does.
pub proof fn lemma_add_and_holds(f: Seq<Seq<Assertion>>, a: Assertion, v: spec_fn(Assertion) -> bool)
    ensures
        formula_holds(f.push(seq![a]), v) == (formula_holds(f, v) && v(a)),
{
    lemma_holds_concat(f, seq![seq![a]], v);
    assert(f.push(seq![a]) =~= f + seq![seq![a]]);
    let one = seq![a];
    if v(a) {
        assert(one[0] == a);
        assert(clause_holds(one, v));
    }
    if clause_holds(one, v) {
        let j = choose|j: int| 0 <= j < one.len() && v(#[trigger] one[j]);
        assert(j == 0);
    }
    assert(formula_holds(seq![one], v) == clause_holds(one, v)) by {
        assert(seq![one][0] == one);
    }
}

/// The AND-clause law: `add_and_clause` yields a formula that holds exactly
/// when the old one holds and one of the new clause's assertions does; with
/// no assertions, the result is `false`.
pub proof fn lemma_add_and_clause_holds(f: Seq<Seq<Assertion>>, or_clause: Seq<Assertion>, v: spec_fn(Assertion) -> bool)
    ensures
        or_clause.len() > 0 ==> formula_holds(f.push(or_clause), v) == (formula_holds(f, v)
            && clause_holds(or_clause, v)),
        !formula_holds(seq![Seq::<Assertion>::empty()], v),
{
    lemma_holds_concat(f, seq![or_clause], v);
    assert(f.push(or_clause) =~= f + seq![or_clause]);
    assert(formula_holds(seq![or_clause], v) == clause_holds(or_clause, v)) by {
        assert(seq![or_clause][0] == or_clause);
    }
    let e = Seq::<Assertion>::empty();
    assert(seq![e][0] == e);
    assert(!clause_holds(e, v));
}

} // verus!
