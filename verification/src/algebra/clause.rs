use vstd::prelude::*;

use crate::algebra::assertion::Assertion;
use crate::algebra::assertion_set::negate_clause;
use crate::algebra::clause_hash::{Digest, FeedHasher, HashInput};
use crate::text::{join, join_strings};
use crate::algebra::index_map::{
    assertion_entries, assertion_map_entries, has_key, keys_distinct, possibilities_clone, possibilities_get,
    possibilities_insert, possibilities_is_empty, possibilities_keys, possibilities_shift_remove,
    key_is_not, possibility_entries, with_entry, without_key, AssertionMap, Possibilities,
};
use crate::context::local_map::{lookup, LocalMap};
use crate::span::Span;

verus! {

/// What is fed for the assertion keys of one variable: each key followed by
/// the marker `1`.
pub open spec fn keys_hash_input(s: Seq<(u64, Assertion)>) -> Seq<HashInput>
    decreases s.len(),
{
    if s.len() == 0 {
        seq![]
    } else {
        keys_hash_input(s.drop_last()) + seq![HashInput::Key(s.last().0), HashInput::Marker(1)]
    }
}

/// What is fed to the hasher for a clause's possibilities: for each
/// variable in order, its id, the marker `0`, then its assertion keys.
pub open spec fn hash_input(entries: ClauseEntries) -> Seq<HashInput>
    decreases entries.len(),
{
    if entries.len() == 0 {
        seq![]
    } else {
        hash_input(entries.drop_last()) + seq![HashInput::Text(entries.last().0), HashInput::Marker(0)]
            + keys_hash_input(entries.last().1)
    }
}

/// The variable ids of a clause's entries with the keys of their
/// assertions: what its hash is computed from.
pub open spec fn ids_and_keys(entries: ClauseEntries) -> Seq<(Seq<char>, Seq<u64>)> {
    entries.map_values(|e: (Seq<char>, Seq<(u64, Assertion)>)| (e.0, e.1.map_values(|a: (u64, Assertion)| a.0)))
}

/// What is fed for assertion keys holds no variable id, two items per key.
proof fn lemma_keys_hash_input_shape(s: Seq<(u64, Assertion)>)
    ensures
        keys_hash_input(s).len() == 2 * s.len(),
        forall|i: int| 0 <= i < keys_hash_input(s).len() ==> !(#[trigger] keys_hash_input(s)[i] is Text),
        forall|i: int| 0 <= i < s.len() ==> #[trigger] keys_hash_input(s)[2 * i] == HashInput::Key(s[i].0),
    decreases s.len(),
{
    if s.len() > 0 {
        lemma_keys_hash_input_shape(s.drop_last());
        let k = keys_hash_input(s);
        let r = keys_hash_input(s.drop_last());
        assert forall|i: int| 0 <= i < k.len() implies !(#[trigger] k[i] is Text) by {
            if i < r.len() {
                assert(k[i] == r[i]);
            }
        }
        assert forall|i: int| 0 <= i < s.len() implies #[trigger] k[2 * i] == HashInput::Key(s[i].0) by {
            if i < s.len() - 1 {
                assert(k[2 * i] == r[2 * i]);
                assert(s.drop_last()[i] == s[i]);
            }
        }
    }
}

/// The keys of an assertion list can be read back from what is fed for them.
proof fn lemma_keys_hash_input_injective(a: Seq<(u64, Assertion)>, b: Seq<(u64, Assertion)>)
    requires
        keys_hash_input(a) == keys_hash_input(b),
    ensures
        a.map_values(|x: (u64, Assertion)| x.0) == b.map_values(|x: (u64, Assertion)| x.0),
{
    lemma_keys_hash_input_shape(a);
    lemma_keys_hash_input_shape(b);
    assert forall|i: int| 0 <= i < a.len() implies a[i].0 == b[i].0 by {
        assert(keys_hash_input(a)[2 * i] == HashInput::Key(a[i].0));
        assert(keys_hash_input(b)[2 * i] == HashInput::Key(b[i].0));
    }
    assert(a.map_values(|x: (u64, Assertion)| x.0) =~= b.map_values(|x: (u64, Assertion)| x.0));
}

/// What is fed to the clause hasher determines the variable ids and their
/// assertion keys: clauses that differ in a variable, or in an assertion
/// key of a variable, are hashed from different inputs.
pub proof fn lemma_hash_input_injective(e1: ClauseEntries, e2: ClauseEntries)
    requires
        hash_input(e1) == hash_input(e2),
    ensures
        ids_and_keys(e1) == ids_and_keys(e2),
    decreases e1.len() + e2.len(),
{
    if e1.len() == 0 || e2.len() == 0 {
        if e1.len() > 0 {
            assert(hash_input(e1).len() > 0);
        }
        if e2.len() > 0 {
            assert(hash_input(e2).len() > 0);
        }
        assert(ids_and_keys(e1) =~= ids_and_keys(e2));
        return;
    }
    let a = hash_input(e1.drop_last());
    let b = hash_input(e2.drop_last());
    let ka = keys_hash_input(e1.last().1);
    let kb = keys_hash_input(e2.last().1);
    lemma_keys_hash_input_shape(e1.last().1);
    lemma_keys_hash_input_shape(e2.last().1);
    let h = hash_input(e1);
    assert(h == a + seq![HashInput::Text(e1.last().0), HashInput::Marker(0)] + ka);
    assert(h == b + seq![HashInput::Text(e2.last().0), HashInput::Marker(0)] + kb);
    // the last variable id stands after the last block's start in both
    assert(h[a.len() as int] is Text);
    assert(h[b.len() as int] is Text);
    if a.len() < b.len() {
        assert(h[b.len() as int] == ka[b.len() - a.len() - 2]);
    } else if b.len() < a.len() {
        assert(h[a.len() as int] == kb[a.len() - b.len() - 2]);
    }
    assert(a.len() == b.len());
    assert(a =~= h.subrange(0, a.len() as int));
    assert(b =~= h.subrange(0, b.len() as int));
    assert(ka =~= h.subrange(a.len() + 2int, h.len() as int));
    assert(kb =~= h.subrange(b.len() + 2int, h.len() as int));
    assert(h[a.len() as int] == HashInput::Text(e1.last().0));
    assert(h[b.len() as int] == HashInput::Text(e2.last().0));
    lemma_keys_hash_input_injective(e1.last().1, e2.last().1);
    lemma_hash_input_injective(e1.drop_last(), e2.drop_last());
    let i1 = ids_and_keys(e1.drop_last());
    assert(ids_and_keys(e1) =~= i1.push((e1.last().0, e1.last().1.map_values(|x: (u64, Assertion)| x.0))));
    assert(ids_and_keys(e2) =~= ids_and_keys(e2.drop_last()).push(
        (e2.last().0, e2.last().1.map_values(|x: (u64, Assertion)| x.0)),
    ));
}

/// Two reconcilable clauses that are no wedges and differ in a variable or
/// in an assertion key of a variable have hashes that come from different
/// hasher inputs.
pub proof fn lemma_clause_hash_inputs_differ(
    c1: Clause,
    e1: ClauseEntries,
    cs1: Span,
    s1: Span,
    g1: bool,
    c2: Clause,
    e2: ClauseEntries,
    cs2: Span,
    s2: Span,
    g2: bool,
)
    requires
        built_from(c1, e1, cs1, s1, false, true, g1),
        built_from(c2, e2, cs2, s2, false, true, g2),
        ids_and_keys(e1) != ids_and_keys(e2),
    ensures
        c1.digest matches Some(d1) && c2.digest matches Some(d2) && d1.input() != d2.input(),
{
    if hash_input(e1) == hash_input(e2) {
        lemma_hash_input_injective(e1, e2);
    }
}

/// One disjunction of a formula: for each variable, the assertions of which
/// at least one holds, keyed by the assertion's hash. Two clauses are equal
/// when their hashes are.
pub struct Clause {
    pub condition_span: Span,
    pub span: Span,
    pub hash: u32,
    pub possibilities: Possibilities,
    pub wedge: bool,
    pub reconcilable: bool,
    pub generated: bool,
    /// For a reconcilable clause that is no wedge, the hasher's result,
    /// whose value cut to 32 bits is `hash`, with what the hasher was fed.
    pub digest: Option<Digest>,
}

impl Eq for Clause {
}

/// The entries of a possibilities map, as a clause holds them.
pub type ClauseEntries = Seq<(Seq<char>, Seq<(u64, Assertion)>)>;

/// The hash of a wedge or unreconcilable clause: the sum of the span's
/// offsets, plus 100000 for a wedge, wrapped to 32 bits.
pub open spec fn span_hash(span: Span, wedge: bool) -> u32 {
    ((span.start.offset + span.end.offset + (if wedge {
        100000int
    } else {
        0int
    })) % 0x1_0000_0000) as u32
}

/// Whether `c` is the clause that `Clause::new` builds from these parts: a
/// wedge or unreconcilable clause is hashed by its span alone; any other
/// clause is hashed by a hasher seeded per process, fed exactly
/// `hash_input(entries)`, and the value of that hash is left open.
pub open spec fn built_from(
    c: Clause,
    entries: ClauseEntries,
    condition_span: Span,
    span: Span,
    wedge: bool,
    reconcilable: bool,
    generated: bool,
) -> bool {
    &&& c.entries() == entries
    &&& c.condition_span == condition_span
    &&& c.span == span
    &&& c.wedge == wedge
    &&& c.reconcilable == reconcilable
    &&& c.generated == generated
    &&& (wedge || !reconcilable) ==> c.hash == span_hash(span, wedge)
    &&& (wedge || !reconcilable) ==> c.digest is None
    &&& !(wedge || !reconcilable) ==> (c.digest matches Some(d) && d.input() == hash_input(entries)
        && c.hash == d.value() as u32)
}

/// Every key of `a` occurs in `b`.
pub open spec fn keys_included(a: Seq<(u64, Assertion)>, b: Seq<(u64, Assertion)>) -> bool {
    forall|k: int| 0 <= k < a.len() ==> has_key(b, (#[trigger] a[k]).0)
}

/// Every variable of `theirs` occurs in `mine`, and each of its assertion keys
/// occurs among the keys that `mine` holds for that variable.
pub open spec fn clause_contains(mine: ClauseEntries, theirs: ClauseEntries) -> bool {
    forall|i: int| 0 <= i < theirs.len() ==> variable_contained(mine, #[trigger] theirs[i])
}

/// The variable of `entry` occurs in `mine` with at least its assertion keys.
pub open spec fn variable_contained(mine: ClauseEntries, entry: (Seq<char>, Seq<(u64, Assertion)>)) -> bool {
    exists|j: int| 0 <= j < mine.len() && (#[trigger] mine[j]).0 == entry.0 && keys_included(entry.1, mine[j].1)
}

/// Two wedge or unreconcilable clauses built over the same span, with the
/// same wedge flag, have the same hash, which is what `==` on clauses
/// compares, whatever their possibilities.
pub proof fn lemma_span_hashed_clauses_equal(
    c1: Clause,
    e1: ClauseEntries,
    cs1: Span,
    r1: bool,
    g1: bool,
    c2: Clause,
    e2: ClauseEntries,
    cs2: Span,
    r2: bool,
    g2: bool,
    span: Span,
    wedge: bool,
)
    requires
        built_from(c1, e1, cs1, span, wedge, r1, g1),
        built_from(c2, e2, cs2, span, wedge, r2, g2),
        wedge || !r1,
        wedge || !r2,
    ensures
        c1.hash == c2.hash,
{
}

/// Every clause contains itself.
pub proof fn lemma_contains_reflexive(c: ClauseEntries)
    ensures
        clause_contains(c, c),
{
    assert forall|i: int| 0 <= i < c.len() implies variable_contained(c, #[trigger] c[i]) by {
        assert forall|k: int| 0 <= k < c[i].1.len() implies has_key(c[i].1, (#[trigger] c[i].1[k]).0) by {
        }
    }
}

/// Containment is transitive: a clause that contains a second contains
/// every clause that the second contains.
pub proof fn lemma_contains_transitive(a: ClauseEntries, b: ClauseEntries, c: ClauseEntries)
    requires
        clause_contains(a, b),
        clause_contains(b, c),
    ensures
        clause_contains(a, c),
{
    assert forall|i: int| 0 <= i < c.len() implies variable_contained(a, #[trigger] c[i]) by {
        assert(variable_contained(b, c[i]));
        let j = choose|j: int| 0 <= j < b.len() && (#[trigger] b[j]).0 == c[i].0 && keys_included(c[i].1, b[j].1);
        assert(variable_contained(a, b[j]));
        let l = choose|l: int| 0 <= l < a.len() && (#[trigger] a[l]).0 == b[j].0 && keys_included(b[j].1, a[l].1);
        assert forall|k: int| 0 <= k < c[i].1.len() implies has_key(a[l].1, (#[trigger] c[i].1[k]).0) by {
            assert(has_key(b[j].1, c[i].1[k].0));
            let m = choose|m: int| 0 <= m < b[j].1.len() && (#[trigger] b[j].1[m]).0 == c[i].1[k].0;
            assert(has_key(a[l].1, b[j].1[m].0));
        }
    }
}

/// A clause contains what is left of it after the possibilities of one
/// variable are removed.
pub proof fn lemma_contains_removal(c: ClauseEntries, var_id: Seq<char>)
    ensures
        clause_contains(c, without_key(c, var_id)),
{
    let w = without_key(c, var_id);
    let pred = key_is_not::<Seq<char>, Seq<(u64, Assertion)>>(var_id);
    assert forall|i: int| 0 <= i < w.len() implies variable_contained(c, #[trigger] w[i]) by {
        assert(w.contains(w[i]));
        c.lemma_filter_contains_rev(pred, w[i]);
        let j = choose|j: int| 0 <= j < c.len() && c[j] == w[i];
        assert forall|k: int| 0 <= k < w[i].1.len() implies has_key(c[j].1, (#[trigger] w[i].1[k]).0) by {
        }
        assert(c[j].0 == w[i].0);
    }
}

/// Setting the possibilities of a variable and then removing that
/// variable's possibilities leaves what removing them alone leaves.
pub proof fn lemma_remove_after_add(c: ClauseEntries, var_id: Seq<char>, p: Seq<(u64, Assertion)>)
    ensures
        without_key(with_entry(c, var_id, p), var_id) == without_key(c, var_id),
{
    let pred = key_is_not::<Seq<char>, Seq<(u64, Assertion)>>(var_id);
    let e = (var_id, p);
    assert(seq![e].filter(pred) =~= Seq::<(Seq<char>, Seq<(u64, Assertion)>)>::empty()) by {
        reveal_with_fuel(Seq::filter, 2);
        assert(seq![e].drop_last() =~= Seq::<(Seq<char>, Seq<(u64, Assertion)>)>::empty());
    }
    if has_key(c, var_id) {
        assert forall|j: int| 0 <= j < c.len() && c[j].0 == var_id implies (#[trigger] c.update(j, e)).filter(pred)
            == c.filter(pred) by {
            let pre = c.subrange(0, j);
            let post = c.subrange(j + 1, c.len() as int);
            let empty = Seq::<(Seq<char>, Seq<(u64, Assertion)>)>::empty();
            assert(seq![c[j]].filter(pred) =~= empty) by {
                reveal_with_fuel(Seq::filter, 2);
                assert(seq![c[j]].drop_last() =~= empty);
            }
            assert(c =~= (pre + seq![c[j]]) + post);
            assert(c.update(j, e) =~= (pre + seq![e]) + post);
            Seq::filter_distributes_over_add(pre + seq![c[j]], post, pred);
            Seq::filter_distributes_over_add(pre, seq![c[j]], pred);
            Seq::filter_distributes_over_add(pre + seq![e], post, pred);
            Seq::filter_distributes_over_add(pre, seq![e], pred);
            assert(pre.filter(pred) + empty =~= pre.filter(pred));
        }
    } else {
        assert(with_entry(c, var_id, p) =~= c + seq![e]);
        Seq::filter_distributes_over_add(c, seq![e], pred);
        assert(c.filter(pred) + Seq::<(Seq<char>, Seq<(u64, Assertion)>)>::empty() =~= c.filter(pred));
    }
}

impl Clone for Clause {
    /// A copy with the same spans, hash, flags and possibilities.
    fn clone(&self) -> (r: Self)
        ensures
            r.entries() == self.entries(),
            r.condition_span == self.condition_span,
            r.span == self.span,
            r.hash == self.hash,
            r.wedge == self.wedge,
            r.reconcilable == self.reconcilable,
            r.generated == self.generated,
            r.digest == self.digest,
    {
        Clause {
            digest: self.digest,
            condition_span: self.condition_span,
            span: self.span,
            hash: self.hash,
            possibilities: possibilities_clone(&self.possibilities),
            wedge: self.wedge,
            reconcilable: self.reconcilable,
            generated: self.generated,
        }
    }
}

impl PartialEq for Clause {
    fn eq(&self, other: &Self) -> (r: bool) {
        self.hash == other.hash
    }
}

impl vstd::std_specs::cmp::PartialEqSpecImpl for Clause {
    open spec fn obeys_eq_spec() -> bool {
        true
    }

    open spec fn eq_spec(&self, other: &Self) -> bool {
        self.hash == other.hash
    }
}

impl std::hash::Hash for Clause {
    #[verifier::external_body]
    fn hash<H: std::hash::Hasher>(&self, state: &mut H) {
        self.hash.hash(state)
    }
}

/// The key of an entry equals `key`, searched by a loop.
fn has_assertion_key(entries: &Vec<(u64, Assertion)>, key: u64) -> (r: bool)
    ensures
        r == has_key(entries@, key),
{
    let n = entries.len();
    for i in 0..n
        invariant
            n == entries@.len(),
            forall|j: int| 0 <= j < i ==> (#[trigger] entries@[j]).0 != key,
    {
        if entries[i].0 == key {
            assert(entries@[i as int].0 == key);
            return true;
        }
    }
    false
}

/// The span-only hash of wedge and unreconcilable clauses, wrapped to 32 bits.
fn span_hash_exec(span: Span, wedge: bool) -> (r: u32)
    ensures
        r == span_hash(span, wedge),
{
    let extra: u64 = if wedge {
        100000
    } else {
        0
    };
    let sum: u64 = span.start.offset as u64 + span.end.offset as u64 + extra;
    (sum % 0x1_0000_0000) as u32
}

/// The hash of a clause: for wedges and unreconcilable clauses the span's
/// offsets; otherwise each variable id followed by `0` and each of its
/// assertion keys followed by `1`, fed in order to a hasher.
fn get_hash(possibilities: &Possibilities, clause_span: Span, wedge: bool, reconcilable: bool) -> (r: (
    u32,
    Option<Digest>,
))
    ensures
        (wedge || !reconcilable) ==> r.0 == span_hash(clause_span, wedge) && r.1 is None,
        !(wedge || !reconcilable) ==> (r.1 matches Some(d) && d.input() == hash_input(
            possibility_entries(*possibilities),
        ) && r.0 == d.value() as u32),
{
    if wedge || !reconcilable {
        return (span_hash_exec(clause_span, wedge), None);
    }
    let ghost es = possibility_entries(*possibilities);
    let mut hasher = FeedHasher::new();
    let keys = possibilities_keys(possibilities);
    proof {
        lemma_distinct_keys_of_entries(keys@, es);
    }
    let n = keys.len();
    for i in 0..n
        invariant
            n == keys.len() == es.len(),
            es == possibility_entries(*possibilities),
            keys_distinct(es),
            forall|t: int| 0 <= t < keys@.len() ==> (#[trigger] keys@[t])@ == es[t].0,
            hasher.fed() == hash_input(es.take(i as int)),
    {
        proof {
            assert(es.take(i + 1).drop_last() =~= es.take(i as int));
            assert(es.take(i + 1).last() == es[i as int]);
        }
        hasher.text(&keys[i]);
        hasher.marker(0);
        let ghost start = hasher.fed();
        assert(keys@[i as int]@ == es[i as int].0);
        assert(has_key(es, keys@[i as int]@));
        match possibilities_get(possibilities, keys[i].as_str()) {
            Some(assertions) => {
                let entries = assertion_map_entries(assertions);
                assert(entries@ == es[i as int].1);
                let m = entries.len();
                for j in 0..m
                    invariant
                        m == entries@.len(),
                        hasher.fed() == start + keys_hash_input(entries@.take(j as int)),
                {
                    proof {
                        assert(entries@.take(j + 1).drop_last() =~= entries@.take(j as int));
                        assert(entries@.take(j + 1).last() == entries@[j as int]);
                    }
                    hasher.key(entries[j].0);
                    hasher.marker(1);
                    assert(hasher.fed() =~= start + keys_hash_input(entries@.take(j + 1)));
                }
                assert(entries@.take(m as int) =~= entries@);
                assert(hasher.fed() =~= hash_input(es.take(i + 1)));
            },
            None => {},
        }
    }
    assert(es.take(n as int) =~= es);
    let digest = hasher.finish();
    (digest.hash_value() as u32, Some(digest))
}

impl Clause {
    /// The clause's possibilities: each variable id with its assertions.
    pub open spec fn entries(&self) -> ClauseEntries {
        possibility_entries(self.possibilities)
    }

    /// A clause from its possibilities. A missing `wedge` or `generated` flag
    /// is `false`, a missing `reconcilable` flag `true`.
    pub fn new(
        possibilities: Possibilities,
        condition_span: Span,
        span: Span,
        wedge: Option<bool>,
        reconcilable: Option<bool>,
        generated: Option<bool>,
    ) -> (r: Clause)
        ensures
            built_from(
                r,
                possibility_entries(possibilities),
                condition_span,
                span,
                wedge.unwrap_or(false),
                reconcilable.unwrap_or(true),
                generated.unwrap_or(false),
            ),
            r.possibilities == possibilities,
    {
        let wedge = wedge.unwrap_or(false);
        let reconcilable = reconcilable.unwrap_or(true);
        let generated = generated.unwrap_or(false);
        let (hash, digest) = get_hash(&possibilities, span, wedge, reconcilable);
        Clause { condition_span, span, wedge, reconcilable, generated, hash, possibilities, digest }
    }

    /// The clause without the assertions on `var_id`, or `None` when nothing
    /// would be left.
    pub fn remove_possibilities(&self, var_id: &String) -> (r: Option<Clause>)
        ensures
            r is None <==> without_key(self.entries(), var_id@).len() == 0,
            r matches Some(c) ==> built_from(
                c,
                without_key(self.entries(), var_id@),
                self.condition_span,
                self.span,
                self.wedge,
                self.reconcilable,
                self.generated,
            ),
    {
        let mut possibilities = possibilities_clone(&self.possibilities);
        possibilities_shift_remove(&mut possibilities, var_id);
        if possibilities_is_empty(&possibilities) {
            return None;
        }
        Some(
            Clause::new(
                possibilities,
                self.condition_span,
                self.span,
                Some(self.wedge),
                Some(self.reconcilable),
                Some(self.generated),
            ),
        )
    }

    /// The clause with the assertions on `var_id` set to `new_possibility`:
    /// an existing variable keeps its place, a new one goes last.
    pub fn add_possibility(&self, var_id: String, new_possibility: AssertionMap) -> (r: Clause)
        ensures
            built_from(
                r,
                with_entry(self.entries(), var_id@, assertion_entries(new_possibility)),
                self.condition_span,
                self.span,
                self.wedge,
                self.reconcilable,
                self.generated,
            ),
    {
        let mut possibilities = possibilities_clone(&self.possibilities);
        possibilities_insert(&mut possibilities, var_id, new_possibility);
        Clause::new(
            possibilities,
            self.condition_span,
            self.span,
            Some(self.wedge),
            Some(self.reconcilable),
            Some(self.generated),
        )
    }

    /// Whether every possibility of `other_clause` is also one of this
    /// clause: each of its variables occurs here with at least its assertion
    /// keys.
    #[verifier::loop_isolation(false)]
    pub fn contains(&self, other_clause: &Self) -> (r: bool)
        ensures
            r == clause_contains(self.entries(), other_clause.entries()),
    {
        let mine = possibilities_keys(&self.possibilities);
        let theirs = possibilities_keys(&other_clause.possibilities);
        let ghost me = self.entries();
        let ghost them = other_clause.entries();
        proof {
            lemma_distinct_keys_of_entries(mine@, me);
            lemma_distinct_keys_of_entries(theirs@, them);
        }
        if theirs.len() > mine.len() {
            proof {
                lemma_more_keys_not_contained(me, them);
            }
            return false;
        }
        let n = theirs.len();
        let mut i: usize = 0;
        while i < n
            invariant
                0 <= i <= n,
                n == theirs@.len() == them.len(),
                me == self.entries(),
                them == other_clause.entries(),
                keys_distinct(me),
                forall|t: int| 0 <= t < n ==> (#[trigger] theirs@[t])@ == them[t].0,
                forall|t: int| 0 <= t < i ==> variable_contained(me, #[trigger] them[t]),
            decreases n - i,
        {
            let key = theirs[i].as_str();
            assert(them[i as int].0 == key@);
            let local = possibilities_get(&self.possibilities, key);
            match local {
                None => {
                    assert(!clause_contains(me, them)) by {
                        if clause_contains(me, them) {
                            assert(variable_contained(me, them[i as int]));
                            let j = choose|j: int|
                                0 <= j < me.len() && (#[trigger] me[j]).0 == them[i as int].0
                                    && keys_included(them[i as int].1, me[j].1);
                            assert(has_key(me, key@));
                        }
                    }
                    return false;
                },
                Some(local_map) => {
                    let theirs_map = possibilities_get(&other_clause.possibilities, key);
                    assert(has_key(them, key@));
                    let theirs_map = theirs_map.unwrap();
                    let wanted = assertion_map_entries(theirs_map);
                    let present = assertion_map_entries(local_map);
                    let ghost j0 = choose|j: int| 0 <= j < me.len() && (#[trigger] me[j]).0 == key@;
                    assert(present@ == me[j0].1);
                    assert(wanted@ == them[i as int].1);
                    let m = wanted.len();
                    for k in 0..m
                        invariant
                            m == wanted@.len(),
                            forall|q: int| 0 <= q < k ==> has_key(present@, (#[trigger] wanted@[q]).0),
                    {
                        if !has_assertion_key(&present, wanted[k].0) {
                            assert(!clause_contains(me, them)) by {
                                if clause_contains(me, them) {
                                    assert(variable_contained(me, them[i as int]));
                                    let j = choose|j: int|
                                        0 <= j < me.len() && (#[trigger] me[j]).0 == them[i as int].0
                                            && keys_included(them[i as int].1, me[j].1);
                                    assert(j == j0) by {
                                        if j != j0 {
                                            if j < j0 {
                                                assert(me[j].0 != me[j0].0);
                                            } else {
                                                assert(me[j0].0 != me[j].0);
                                            }
                                        }
                                    }
                                    assert(has_key(me[j].1, wanted@[k as int].0));
                                }
                            }
                            return false;
                        }
                    }
                    assert(keys_included(them[i as int].1, me[j0].1));
                    assert(variable_contained(me, them[i as int]));
                },
            }
            i = i + 1;
        }
        true
    }

    /// The clause as text, such as `($a is int) || (!$b)`.
    pub fn to_string(&self) -> (r: String)
        requires
            showable(self.entries()),
        ensures
            r@ == clause_text(self.entries()),
    {
        let keys = possibilities_keys(&self.possibilities);
        let ghost es = self.entries();
        let n = keys.len();
        if n == 0 {
            let mut empty = String::new();
            empty.append("<empty>");
            return empty;
        }
        let ghost texts = es.map_values(
            |e: (Seq<char>, Seq<(u64, Assertion)>)| variable_text(e.0, e.1),
        );
        let mut clause_strings: Vec<String> = Vec::new();
        for i in 0..n
            invariant
                n == keys@.len() == es.len(),
                es == self.entries(),
                showable(es),
                texts == es.map_values(|e: (Seq<char>, Seq<(u64, Assertion)>)| variable_text(e.0, e.1)),
                forall|t: int| 0 <= t < n ==> (#[trigger] keys@[t])@ == es[t].0,
                clause_strings@.map_values(|p: String| p@) == texts.take(i as int),
        {
            let var_id = &keys[i];
            assert(es[i as int].0 == var_id@);
            assert(showable(es) ==> es[i as int].0.len() > 0);
            let shown = if var_id.as_str().get_char(0) == '*' {
                let mut e = String::new();
                e.append("<expr>");
                e
            } else {
                var_id.clone()
            };
            assert(shown@ == shown_var(var_id@));
            let assertions = possibilities_get(&self.possibilities, var_id.as_str());
            assert(has_key(es, var_id@));
            let entries = assertion_map_entries(assertions.unwrap());
            assert(entries@ == es[i as int].1);
            let ghost parts = entries@.map_values(|e: (u64, Assertion)| assertion_text(shown_var(var_id@), e.1));
            let mut clause_string_parts: Vec<String> = Vec::new();
            let m = entries.len();
            for j in 0..m
                invariant
                    m == entries@.len(),
                    shown@ == shown_var(var_id@),
                    parts == entries@.map_values(|e: (u64, Assertion)| assertion_text(shown_var(var_id@), e.1)),
                    clause_string_parts@.map_values(|p: String| p@) == parts.take(j as int),
            {
                let text = assertion_to_text(&shown, &entries[j].1);
                let ghost before = clause_string_parts@;
                assert(parts[j as int] == assertion_text(shown_var(var_id@), entries@[j as int].1));
                assert(text@ == parts[j as int]);
                clause_string_parts.push(text);
                assert(before.map_values(|p: String| p@) == parts.take(j as int));
                assert(clause_string_parts@.map_values(|p: String| p@) =~= before.map_values(|p: String| p@).push(text@));
                assert(parts.take(j + 1) =~= parts.take(j as int).push(parts[j as int]));
            }
            assert(parts.take(m as int) =~= parts);
            let text = if clause_string_parts.len() > 1 {
                let mut b = String::new();
                b.append("(");
                let joined = join_strings(&clause_string_parts, ") || (");
                b.append(joined.as_str());
                b.append(")");
                b
            } else {
                assert(m > 0);
                clause_string_parts[0].clone()
            };
            assert(text@ == variable_text(es[i as int].0, es[i as int].1));
            assert(texts[i as int] == variable_text(es[i as int].0, es[i as int].1));
            let ghost before_strings = clause_strings@;
            clause_strings.push(text);
            assert(clause_strings@.map_values(|p: String| p@) =~= before_strings.map_values(|p: String| p@).push(texts[i as int]));
            assert(texts.take(i + 1) =~= texts.take(i as int).push(texts[i as int]));
        }
        assert(texts.take(n as int) =~= texts);
        let joined_clause = join_strings(&clause_strings, ") || (");
        if clause_strings.len() > 1 {
            let mut b = String::new();
            b.append("(");
            b.append(joined_clause.as_str());
            b.append(")");
            b
        } else {
            joined_clause
        }
    }

    /// For each variable with assertions, the negations of its assertions,
    /// keyed (and so ordered) by the variable id.
    #[verifier::loop_isolation(false)]
    pub fn get_impossibilities(&self) -> (r: LocalMap<Vec<Assertion>>)
        ensures
            r@.len() == impossibilities(self.entries()).len(),
            forall|k: Seq<char>|
                #![trigger lookup(r@, k)]
                lookup(r@, k) is Some <==> has_key(impossibilities(self.entries()), k),
            forall|i: int|
                0 <= i < impossibilities(self.entries()).len() ==> ((#[trigger] lookup(
                    r@,
                    impossibilities(self.entries())[i].0,
                )) matches Some(v) && v@ == impossibilities(self.entries())[i].1),
    {
        let ghost es = self.entries();
        let keys = possibilities_keys(&self.possibilities);
        proof {
            lemma_distinct_keys_of_entries(keys@, es);
        }
        let mut r: LocalMap<Vec<Assertion>> = LocalMap::new();
        let n = keys.len();
        let mut i: usize = 0;
        while i < n
            invariant
                0 <= i <= n,
                n == keys@.len() == es.len(),
                keys_distinct(es),
                r@.len() == impossibilities(es.take(i as int)).len(),
                forall|k: Seq<char>|
                    #![trigger lookup(r@, k)]
                    lookup(r@, k) is Some <==> has_key(impossibilities(es.take(i as int)), k),
                forall|t: int|
                    0 <= t < impossibilities(es.take(i as int)).len() ==> ((#[trigger] lookup(
                        r@,
                        impossibilities(es.take(i as int))[t].0,
                    )) matches Some(v) && v@ == impossibilities(es.take(i as int))[t].1),
            decreases n - i,
        {
            let ghost pre = es.take(i as int);
            let ghost post = es.take(i + 1);
            assert(post.drop_last() =~= pre);
            assert(post.last() == es[i as int]);
            let key = keys[i].as_str();
            proof {
                assert(es[i as int].0 == key@);
                if has_key(impossibilities(pre), key@) {
                    lemma_impossibility_keys(pre, key@);
                    let j = choose|j: int| 0 <= j < pre.len() && (#[trigger] pre[j]).0 == key@;
                    assert(pre[j] == es[j]);
                }
            }
            if let Some(assertions) = possibilities_get(&self.possibilities, key) {
                let entries = assertion_map_entries(assertions);
                assert(entries@ == es[i as int].1);
                let m = entries.len();
                let mut negations: Vec<Assertion> = Vec::new();
                let mut j: usize = 0;
                while j < m
                    invariant
                        0 <= j <= m,
                        m == entries@.len(),
                        negations@ == negate_clause(assertion_values(entries@.take(j as int))),
                    decreases m - j,
                {
                    negations.push(entries[j].1.get_negation());
                    assert(negate_clause(assertion_values(entries@.take(j + 1))) =~= negate_clause(
                        assertion_values(entries@.take(j as int)),
                    ).push(entries@[j as int].1.negation()));
                    j = j + 1;
                }
                assert(entries@.take(m as int) =~= entries@);
                assert(negations@.len() == es[i as int].1.len());
                if negations.len() == 0 {
                    assert(impossibilities(post) == impossibilities(pre));
                }
                if negations.len() > 0 {
                    let ghost before = r@;
                    let ghost imp = impossibilities(pre);
                    let ghost negs = negations@;
                    assert(!has_key(imp, key@));
                    assert(lookup(before, key@) is None);
                    let added = r.insert(keys[i].clone(), negations);
                    assert(added);
                    proof {
                        let imp2 = impossibilities(post);
                        assert(imp2 == imp.push((key@, negs)));
                        assert forall|k: Seq<char>| #![trigger lookup(r@, k)]
                            lookup(r@, k) is Some <==> has_key(imp2, k) by {
                            if k != key@ {
                                if has_key(imp2, k) {
                                    let t = choose|t: int| 0 <= t < imp2.len() && (#[trigger] imp2[t]).0 == k;
                                    assert(t < imp.len());
                                    assert(imp[t] == imp2[t]);
                                }
                                if has_key(imp, k) {
                                    let t = choose|t: int| 0 <= t < imp.len() && (#[trigger] imp[t]).0 == k;
                                    assert(imp2[t] == imp[t]);
                                }
                            } else {
                                assert(imp2[imp.len() as int].0 == k);
                            }
                        }
                        assert forall|t: int| 0 <= t < imp2.len() implies ((#[trigger] lookup(r@, imp2[t].0)) matches Some(
                            v,
                        ) && v@ == imp2[t].1) by {
                            if t < imp.len() {
                                assert(imp2[t] == imp[t]);
                                assert(has_key(imp, imp[t].0));
                                assert(imp[t].0 != key@);
                                assert(lookup(before, imp[t].0) matches Some(v) && v@ == imp[t].1);
                            }
                        }
                    }
                }
            } else {
                assert(has_key(es, key@)) by {
                    assert(es[i as int].0 == key@);
                }
            }
            i = i + 1;
        }
        assert(es.take(n as int) =~= es);
        r
    }
}

/// The variables of the impossibilities are variables of the clause.
proof fn lemma_impossibility_keys(es: ClauseEntries, k: Seq<char>)
    requires
        has_key(impossibilities(es), k),
    ensures
        has_key(es, k),
    decreases es.len(),
{
    let rest = impossibilities(es.drop_last());
    let imp = impossibilities(es);
    let t = choose|t: int| 0 <= t < imp.len() && (#[trigger] imp[t]).0 == k;
    if t < rest.len() {
        assert(imp[t] == rest[t]);
        lemma_impossibility_keys(es.drop_last(), k);
        let j = choose|j: int| 0 <= j < es.drop_last().len() && (#[trigger] es.drop_last()[j]).0 == k;
        assert(es[j] == es.drop_last()[j]);
    } else {
        assert(es[es.len() - 1].0 == k);
    }
}

/// Entries whose keys were handed out as distinct strings have distinct keys.
proof fn lemma_distinct_keys_of_entries(keys: Seq<String>, entries: ClauseEntries)
    requires
        keys.len() == entries.len(),
        forall|i: int| 0 <= i < keys.len() ==> (#[trigger] keys[i])@ == entries[i].0,
        forall|i: int, j: int| 0 <= i < j < keys.len() ==> (#[trigger] keys[i])@ != (#[trigger] keys[j])@,
    ensures
        keys_distinct(entries),
{
    assert forall|i: int, j: int| 0 <= i < j < entries.len() implies (#[trigger] entries[i]).0 != (
    #[trigger] entries[j]).0 by {
        assert(keys[i]@ != keys[j]@);
    }
}

/// The assertions of an assertion map, in order.
pub open spec fn assertion_values(entries: Seq<(u64, Assertion)>) -> Seq<Assertion> {
    entries.map_values(|e: (u64, Assertion)| e.1)
}

/// For each variable with at least one assertion, in order, the negations of
/// its assertions: what the variable cannot be when the clause fails.
pub open spec fn impossibilities(entries: ClauseEntries) -> Seq<(Seq<char>, Seq<Assertion>)>
    decreases entries.len(),
{
    if entries.len() == 0 {
        seq![]
    } else {
        let rest = impossibilities(entries.drop_last());
        let last = entries.last();
        if last.1.len() > 0 {
            rest.push((last.0, negate_clause(assertion_values(last.1))))
        } else {
            rest
        }
    }
}

/// How a variable is shown: an expression id (starting with `*`) as
/// `<expr>`, any other id as itself.
pub open spec fn shown_var(var: Seq<char>) -> Seq<char> {
    if var[0] == '*' {
        "<expr>"@
    } else {
        var
    }
}

/// How one assertion on a variable is shown.
pub open spec fn assertion_text(var: Seq<char>, a: Assertion) -> Seq<char> {
    match a {
        Assertion::Any => var + " is any"@,
        Assertion::Falsy => "!"@ + var,
        Assertion::Truthy => var,
        Assertion::IsType(t) => var + " is "@ + t@,
        Assertion::IsIdentical(t) => var + " is "@ + t@,
        Assertion::IsNotType(t) => var + " is not "@ + t@,
        Assertion::IsNotIdentical(t) => var + " is not "@ + t@,
        _ => a.atom(),
    }
}

/// How the assertions on one variable are shown: a single one bare, several
/// as `(a) || (b)`.
pub open spec fn variable_text(var: Seq<char>, entries: Seq<(u64, Assertion)>) -> Seq<char> {
    let parts = entries.map_values(|e: (u64, Assertion)| assertion_text(shown_var(var), e.1));
    if parts.len() > 1 {
        "("@ + join(parts, ") || ("@) + ")"@
    } else {
        parts[0]
    }
}

/// How a clause is shown: `<empty>` without variables, otherwise the
/// variables' texts joined by `) || (`, in brackets when there are several.
pub open spec fn clause_text(entries: ClauseEntries) -> Seq<char> {
    if entries.len() == 0 {
        "<empty>"@
    } else {
        let texts = entries.map_values(
            |e: (Seq<char>, Seq<(u64, Assertion)>)| variable_text(e.0, e.1),
        );
        let joined = join(texts, ") || ("@);
        if texts.len() > 1 {
            "("@ + joined + ")"@
        } else {
            joined
        }
    }
}

/// Whether the clause can be shown: each variable id is non-empty and starts
/// with an ASCII character, and each variable has an assertion.
pub open spec fn showable(entries: ClauseEntries) -> bool {
    forall|i: int|
        0 <= i < entries.len() ==> (#[trigger] entries[i]).0.len() > 0 && (entries[i].0[0] as u32)
            < 128 && entries[i].1.len() > 0
}

/// One assertion on a variable, shown.
fn assertion_to_text(var: &String, a: &Assertion) -> (r: String)
    ensures
        r@ == assertion_text(var@, *a),
{
    let mut s = String::new();
    match a {
        Assertion::Any => {
            s.append(var.as_str());
            s.append(" is any");
        },
        Assertion::Falsy => {
            s.append("!");
            s.append(var.as_str());
        },
        Assertion::Truthy => {
            s.append(var.as_str());
        },
        Assertion::IsType(t) | Assertion::IsIdentical(t) => {
            s.append(var.as_str());
            s.append(" is ");
            s.append(t.as_str());
        },
        Assertion::IsNotType(t) | Assertion::IsNotIdentical(t) => {
            s.append(var.as_str());
            s.append(" is not ");
            s.append(t.as_str());
        },
        _ => {
            let atom = a.to_atom();
            s.append(atom.as_str());
        },
    }
    assert(s@ =~= assertion_text(var@, *a));
    s
}

/// A clause with more variables than another cannot be contained in it:
/// the variables of a clause are distinct.
proof fn lemma_more_keys_not_contained(me: ClauseEntries, them: ClauseEntries)
    requires
        keys_distinct(them),
        them.len() > me.len(),
    ensures
        !clause_contains(me, them),
{
    if clause_contains(me, them) {
        let tk = them.map_values(|e: (Seq<char>, Seq<(u64, Assertion)>)| e.0);
        let mk = me.map_values(|e: (Seq<char>, Seq<(u64, Assertion)>)| e.0);
        assert(tk.no_duplicates()) by {
            assert forall|i: int, j: int| 0 <= i < tk.len() && 0 <= j < tk.len() && i != j implies tk[i]
                != tk[j] by {
                if i < j {
                    assert(them[i].0 != them[j].0);
                } else {
                    assert(them[j].0 != them[i].0);
                }
            }
        }
        tk.unique_seq_to_set();
        mk.lemma_cardinality_of_set();
        assert(tk.to_set().subset_of(mk.to_set())) by {
            assert forall|x: Seq<char>| tk.to_set().contains(x) implies mk.to_set().contains(x) by {
                let i = choose|i: int| 0 <= i < tk.len() && tk[i] == x;
                assert(variable_contained(me, them[i]));
                let j = choose|j: int|
                    0 <= j < me.len() && (#[trigger] me[j]).0 == them[i].0 && keys_included(
                        them[i].1,
                        me[j].1,
                    );
                assert(mk[j] == x);
            }
        }
        vstd::set_lib::lemma_len_subset(tk.to_set(), mk.to_set());
    }
}

} // verus!
