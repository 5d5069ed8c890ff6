use vstd::prelude::*;

use std::rc::Rc;

use crate::algebra::assertion::Assertion;
use crate::context::local_map::LocalMap;
use crate::span::Span;

verus! {

/// The value stored for key `k`, if any.
pub open spec fn range_lookup<V>(s: Seq<((usize, usize), V)>, k: (usize, usize)) -> Option<V> {
    if exists|i: int| 0 <= i < s.len() && (#[trigger] s[i]).0 == k {
        Some(s[choose|i: int| 0 <= i < s.len() && (#[trigger] s[i]).0 == k].1)
    } else {
        None
    }
}

/// No key occurs twice.
pub open spec fn ranges_distinct<V>(s: Seq<((usize, usize), V)>) -> bool {
    forall|i: int, j: int| 0 <= i < j < s.len() ==> (#[trigger] s[i]).0 != (#[trigger] s[j]).0
}

proof fn lemma_range_lookup_at<V>(s: Seq<((usize, usize), V)>, i: int)
    requires
        ranges_distinct(s),
        0 <= i < s.len(),
    ensures
        range_lookup(s, s[i].0) == Some(s[i].1),
{
    let j = choose|j: int| 0 <= j < s.len() && (#[trigger] s[j]).0 == s[i].0;
    if j != i {
        if j < i {
            assert(s[j].0 != s[i].0);
        } else {
            assert(s[i].0 != s[j].0);
        }
    }
}

/// A map from source ranges (start and end offsets) to values.
pub struct RangeMap<V> {
    entries: Vec<((usize, usize), V)>,
}

impl<V> View for RangeMap<V> {
    type V = Seq<((usize, usize), V)>;

    closed spec fn view(&self) -> Seq<((usize, usize), V)> {
        self.entries@
    }
}

impl<V> RangeMap<V> {
    #[verifier::type_invariant]
    spec fn distinct(self) -> bool {
        ranges_distinct(self.entries@)
    }

    /// An empty map.
    pub fn new() -> (r: Self)
        ensures
            r@.len() == 0,
    {
        RangeMap { entries: Vec::new() }
    }

    /// The position of a range, if it has a value.
    fn position(&self, range: (usize, usize)) -> (r: Option<usize>)
        ensures
            r matches Some(i) ==> i < self@.len() && self@[i as int].0 == range,
            r is None <==> range_lookup(self@, range) is None,
    {
        let n = self.entries.len();
        for i in 0..n
            invariant
                n == self@.len(),
                self@ == self.entries@,
                forall|j: int| 0 <= j < i ==> (#[trigger] self@[j]).0 != range,
        {
            if self.entries[i].0.0 == range.0 && self.entries[i].0.1 == range.1 {
                return Some(i);
            }
        }
        None
    }

    /// The value of a range.
    pub fn get(&self, range: (usize, usize)) -> (r: Option<&V>)
        ensures
            r is Some <==> range_lookup(self@, range) is Some,
            r matches Some(v) ==> range_lookup(self@, range) == Some(*v),
    {
        proof {
            use_type_invariant(self);
        }
        match self.position(range) {
            Some(i) => {
                proof {
                    lemma_range_lookup_at(self@, i as int);
                }
                Some(&self.entries[i].1)
            },
            None => None,
        }
    }

    /// Sets the value of a range.
    pub fn insert(&mut self, range: (usize, usize), value: V)
        ensures
            range_lookup(final(self)@, range) == Some(value),
            forall|k: (usize, usize)| k != range ==> range_lookup(final(self)@, k) == range_lookup(old(self)@, k),
    {
        proof {
            use_type_invariant(&*self);
        }
        let ghost s = self@;
        match self.position(range) {
            Some(i) => {
                let mut entries: Vec<((usize, usize), V)> = Vec::new();
                std::mem::swap(&mut entries, &mut self.entries);
                entries.set(i, (range, value));
                let ghost t = entries@;
                proof {
                    assert(t =~= s.update(i as int, (range, value)));
                    assert(ranges_distinct(t)) by {
                        assert forall|a: int, b: int| 0 <= a < b < t.len() implies (#[trigger] t[a]).0 != (#[trigger] t[b]).0 by {
                            assert(t[a].0 == s[a].0 && t[b].0 == s[b].0);
                        }
                    }
                    lemma_range_lookup_at(t, i as int);
                    assert forall|k: (usize, usize)| k != range implies range_lookup(t, k) == range_lookup(s, k) by {
                        if exists|j: int| 0 <= j < s.len() && (#[trigger] s[j]).0 == k {
                            let j = choose|j: int| 0 <= j < s.len() && (#[trigger] s[j]).0 == k;
                            lemma_range_lookup_at(s, j);
                            lemma_range_lookup_at(t, j);
                        }
                        if exists|j: int| 0 <= j < t.len() && (#[trigger] t[j]).0 == k {
                            let j = choose|j: int| 0 <= j < t.len() && (#[trigger] t[j]).0 == k;
                            assert(s[j].0 == k);
                        }
                    }
                }
                self.entries = entries;
            },
            None => {
                let mut entries: Vec<((usize, usize), V)> = Vec::new();
                std::mem::swap(&mut entries, &mut self.entries);
                entries.push((range, value));
                let ghost t = entries@;
                proof {
                    assert(t =~= s.push((range, value)));
                    assert(ranges_distinct(t)) by {
                        assert forall|a: int, b: int| 0 <= a < b < t.len() implies (#[trigger] t[a]).0 != (#[trigger] t[b]).0 by {
                            if b == s.len() {
                                assert(t[a] == s[a]);
                                if s[a].0 == range {
                                    assert(exists|j: int| 0 <= j < s.len() && (#[trigger] s[j]).0 == range);
                                }
                            } else {
                                assert(t[a] == s[a] && t[b] == s[b]);
                            }
                        }
                    }
                    lemma_range_lookup_at(t, s.len() as int);
                    assert forall|k: (usize, usize)| k != range implies range_lookup(t, k) == range_lookup(s, k) by {
                        if exists|j: int| 0 <= j < s.len() && (#[trigger] s[j]).0 == k {
                            let j = choose|j: int| 0 <= j < s.len() && (#[trigger] s[j]).0 == k;
                            lemma_range_lookup_at(s, j);
                            assert(t[j] == s[j]);
                            lemma_range_lookup_at(t, j);
                        }
                        if exists|j: int| 0 <= j < t.len() && (#[trigger] t[j]).0 == k {
                            let j = choose|j: int| 0 <= j < t.len() && (#[trigger] t[j]).0 == k;
                            assert(j < s.len());
                            assert(t[j] == s[j]);
                        }
                    }
                }
                self.entries = entries;
            },
        }
    }
}

/// What the analysis of a body records: the type of each expression, keyed
/// by its source range, the assertions that hold of each variable where a
/// condition at a range is true or false, and the return types inferred so
/// far.
pub struct AnalysisArtifacts<T> {
    pub expression_types: RangeMap<Rc<T>>,
    pub if_true_assertions: RangeMap<LocalMap<Vec<Assertion>>>,
    pub if_false_assertions: RangeMap<LocalMap<Vec<Assertion>>>,
    pub inferred_return_types: Vec<T>,
}

/// The range of an expression: its start and end offsets.
pub fn get_expression_range(span: &Span) -> (r: (usize, usize))
    ensures
        r == (span.start.offset as usize, span.end.offset as usize),
{
    (span.start.offset as usize, span.end.offset as usize)
}

impl<T> AnalysisArtifacts<T> {
    /// Nothing recorded yet.
    pub fn new() -> (r: Self)
        ensures
            r.expression_types@.len() == 0,
            r.if_true_assertions@.len() == 0,
            r.if_false_assertions@.len() == 0,
            r.inferred_return_types@.len() == 0,
    {
        AnalysisArtifacts {
            expression_types: RangeMap::new(),
            if_true_assertions: RangeMap::new(),
            if_false_assertions: RangeMap::new(),
            inferred_return_types: Vec::new(),
        }
    }

    /// Sets the type of the expression at `span`.
    pub fn set_expression_type(&mut self, span: &Span, t: T)
        ensures
            range_lookup(final(self).expression_types@, get_range(*span)) == Some(Rc::new(t)),
            forall|k: (usize, usize)|
                k != get_range(*span) ==> range_lookup(final(self).expression_types@, k) == range_lookup(
                    old(self).expression_types@,
                    k,
                ),
            *final(self) == (AnalysisArtifacts { expression_types: final(self).expression_types, ..*old(self) }),
    {
        self.expression_types.insert(get_expression_range(span), Rc::new(t));
    }

    /// The type of the expression at `span`.
    pub fn get_expression_type(&self, span: &Span) -> (r: Option<&T>)
        ensures
            r is Some <==> range_lookup(self.expression_types@, get_range(*span)) is Some,
            r matches Some(t) ==> range_lookup(self.expression_types@, get_range(*span)) == Some(
                Rc::new(*t),
            ),
    {
        match self.expression_types.get(get_expression_range(span)) {
            Some(t) => Some(&**t),
            None => None,
        }
    }

    /// Sets the shared type of the expression at `span`.
    pub fn set_rc_expression_type(&mut self, span: &Span, t: Rc<T>)
        ensures
            range_lookup(final(self).expression_types@, get_range(*span)) == Some(t),
            forall|k: (usize, usize)|
                k != get_range(*span) ==> range_lookup(final(self).expression_types@, k) == range_lookup(
                    old(self).expression_types@,
                    k,
                ),
            *final(self) == (AnalysisArtifacts { expression_types: final(self).expression_types, ..*old(self) }),
    {
        self.expression_types.insert(get_expression_range(span), t);
    }

    /// The shared type of the expression at `span`.
    pub fn get_rc_expression_type(&self, span: &Span) -> (r: Option<&Rc<T>>)
        ensures
            r is Some <==> range_lookup(self.expression_types@, get_range(*span)) is Some,
            r matches Some(t) ==> range_lookup(self.expression_types@, get_range(*span)) == Some(*t),
    {
        self.expression_types.get(get_expression_range(span))
    }
}

/// The range of a span: its start and end offsets.
pub open spec fn get_range(span: Span) -> (usize, usize) {
    (span.start.offset as usize, span.end.offset as usize)
}

} // verus!
