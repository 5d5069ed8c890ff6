use vstd::prelude::*;

use crate::algebra::index_map::has_key;
use crate::text::{
    lemma_text_lt_asymmetric, lemma_text_lt_irreflexive, lemma_text_lt_total,
    lemma_text_lt_transitive, text_less, text_lt,
};

verus! {

/// The entries' keys are in strictly increasing string order.
pub open spec fn keys_sorted<T>(s: Seq<(Seq<char>, T)>) -> bool {
    forall|i: int, j: int| 0 <= i < j < s.len() ==> text_lt((#[trigger] s[i]).0, (#[trigger] s[j]).0)
}

/// The value of key `k`, if the entries hold it.
pub open spec fn lookup<T>(s: Seq<(Seq<char>, T)>, k: Seq<char>) -> Option<T> {
    if has_key(s, k) {
        Some(s[choose|i: int| 0 <= i < s.len() && (#[trigger] s[i]).0 == k].1)
    } else {
        None
    }
}

/// A map from variable ids to values, kept in the order of the ids (the
/// order `Ord` gives strings).
pub struct LocalMap<T> {
    entries: Vec<(String, T)>,
}

impl<T> View for LocalMap<T> {
    type V = Seq<(Seq<char>, T)>;

    closed spec fn view(&self) -> Seq<(Seq<char>, T)> {
        self.entries@.map_values(|e: (String, T)| (e.0@, e.1))
    }
}

/// In sorted entries, the value at a position is the one looked up by its
/// key.
pub proof fn lemma_lookup_at<T>(s: Seq<(Seq<char>, T)>, i: int)
    requires
        keys_sorted(s),
        0 <= i < s.len(),
    ensures
        lookup(s, s[i].0) == Some(s[i].1),
{
    assert(has_key(s, s[i].0));
    let j = choose|j: int| 0 <= j < s.len() && (#[trigger] s[j]).0 == s[i].0;
    if j != i {
        if j < i {
            assert(text_lt(s[j].0, s[i].0));
        } else {
            assert(text_lt(s[i].0, s[j].0));
        }
        lemma_text_lt_irreflexive(s[i].0);
    }
}

impl<T> LocalMap<T> {
    #[verifier::type_invariant]
    spec fn sorted(self) -> bool {
        keys_sorted(self@)
    }

    /// An empty map.
    pub fn new() -> (r: Self)
        ensures
            r@ == Seq::<(Seq<char>, T)>::empty(),
    {
        let r = LocalMap { entries: Vec::new() };
        assert(r@ =~= Seq::<(Seq<char>, T)>::empty());
        r
    }

    /// The number of entries; the entries are in increasing key order.
    pub fn len(&self) -> (r: usize)
        ensures
            r == self@.len(),
            keys_sorted(self@),
    {
        proof {
            use_type_invariant(self);
        }
        self.entries.len()
    }

    /// The entries, in key order.
    pub fn into_entries(self) -> (r: Vec<(String, T)>)
        ensures
            r@.map_values(|e: (String, T)| (e.0@, e.1)) == self@,
            keys_sorted(self@),
    {
        proof {
            use_type_invariant(&self);
        }
        self.entries
    }

    /// The key and value at a position of the key order.
    pub fn entry_at(&self, i: usize) -> (r: (&String, &T))
        requires
            i < self@.len(),
        ensures
            (r.0@, *r.1) == self@[i as int],
    {
        let e = &self.entries[i];
        (&e.0, &e.1)
    }

    /// The first position whose key is not before `key`, and whether that
    /// key is `key`.
    fn find(&self, key: &str) -> (r: (usize, bool))
        ensures
            r.0 <= self@.len(),
            forall|j: int| 0 <= j < r.0 ==> text_lt((#[trigger] self@[j]).0, key@),
            forall|j: int| r.0 <= j < self@.len() ==> !text_lt((#[trigger] self@[j]).0, key@),
            r.1 <==> (r.0 < self@.len() && self@[r.0 as int].0 == key@),
            r.1 <==> has_key(self@, key@),
    {
        proof {
            use_type_invariant(self);
        }
        let n = self.entries.len();
        let mut i: usize = 0;
        let mut stop = false;
        while i < n && !stop
            invariant
                n == self@.len(),
                i <= n,
                keys_sorted(self@),
                forall|j: int| 0 <= j < i ==> text_lt((#[trigger] self@[j]).0, key@),
                stop ==> i < n && !text_lt(self@[i as int].0, key@),
            decreases n - i + if stop {
                0int
            } else {
                1int
            },
        {
            assert(self@[i as int].0 == self.entries@[i as int].0@);
            if text_less(self.entries[i].0.as_str(), key) {
                i = i + 1;
            } else {
                stop = true;
            }
        }
        proof {
            assert forall|j: int| i <= j < self@.len() implies !text_lt((#[trigger] self@[j]).0, key@) by {
                if j > i && text_lt(self@[j].0, key@) {
                    assert(text_lt(self@[i as int].0, self@[j].0));
                    lemma_text_lt_transitive(self@[i as int].0, self@[j].0, key@);
                    lemma_text_lt_asymmetric(self@[i as int].0, key@);
                    if self@[i as int].0 != key@ {
                        lemma_text_lt_total(self@[i as int].0, key@);
                    }
                    lemma_text_lt_irreflexive(key@);
                }
            }
        }
        let found = i < n && !text_less(key, self.entries[i].0.as_str());
        proof {
            if i < n {
                assert(self@[i as int].0 == self.entries@[i as int].0@);
                if !text_lt(key@, self@[i as int].0) && self@[i as int].0 != key@ {
                    lemma_text_lt_total(self@[i as int].0, key@);
                }
                if self@[i as int].0 == key@ {
                    lemma_text_lt_irreflexive(key@);
                }
            }
            if has_key(self@, key@) {
                let j = choose|j: int| 0 <= j < self@.len() && (#[trigger] self@[j]).0 == key@;
                lemma_text_lt_irreflexive(key@);
                if j > i {
                    assert(text_lt(self@[i as int].0, self@[j].0));
                }
            }
        }
        (i, found)
    }

    /// The value of a key.
    pub fn get(&self, key: &str) -> (r: Option<&T>)
        ensures
            r is Some <==> lookup(self@, key@) is Some,
            r matches Some(v) ==> lookup(self@, key@) == Some(*v),
    {
        proof {
            use_type_invariant(self);
        }
        let (i, found) = self.find(key);
        if found {
            proof {
                lemma_lookup_at(self@, i as int);
            }
            Some(&self.entries[i].1)
        } else {
            None
        }
    }

    /// Whether the map has a key.
    pub fn contains_key(&self, key: &str) -> (r: bool)
        ensures
            r == has_key(self@, key@),
    {
        let (_, found) = self.find(key);
        found
    }

    /// Sets the value of a key; returns whether the key was new.
    pub fn insert(&mut self, key: String, value: T) -> (r: bool)
        ensures
            r == !has_key(old(self)@, key@),
            lookup(final(self)@, key@) == Some(value),
            forall|k: Seq<char>| k != key@ ==> lookup(final(self)@, k) == lookup(old(self)@, k),
            final(self)@.len() == old(self)@.len() + if r {
                1int
            } else {
                0int
            },
    {
        proof {
            use_type_invariant(&*self);
        }
        let (i, found) = self.find(key.as_str());
        let ghost s = self@;
        let ghost k = key@;
        if found {
            let mut entries: Vec<(String, T)> = Vec::new();
            std::mem::swap(&mut entries, &mut self.entries);
            entries.set(i, (key, value));
            let ghost t = entries@.map_values(|e: (String, T)| (e.0@, e.1));
            proof {
                assert(t =~= s.update(i as int, (k, value)));
                assert(keys_sorted(t)) by {
                    assert forall|a: int, b: int| 0 <= a < b < t.len() implies text_lt(
                        (#[trigger] t[a]).0,
                        (#[trigger] t[b]).0,
                    ) by {
                        assert(t[a].0 == s[a].0);
                        assert(t[b].0 == s[b].0);
                    }
                }
                lemma_lookup_at(t, i as int);
                assert forall|k2: Seq<char>| k2 != k implies lookup(t, k2) == lookup(s, k2) by {
                    if has_key(s, k2) {
                        let j = choose|j: int| 0 <= j < s.len() && (#[trigger] s[j]).0 == k2;
                        lemma_lookup_at(s, j);
                        lemma_lookup_at(t, j);
                    }
                    if has_key(t, k2) {
                        let j = choose|j: int| 0 <= j < t.len() && (#[trigger] t[j]).0 == k2;
                        assert(s[j].0 == k2);
                    }
                }
            }
            self.entries = entries;
            false
        } else {
            let mut entries: Vec<(String, T)> = Vec::new();
            std::mem::swap(&mut entries, &mut self.entries);
            entries.insert(i, (key, value));
            let ghost t = entries@.map_values(|e: (String, T)| (e.0@, e.1));
            proof {
                assert(t =~= s.insert(i as int, (k, value)));
                assert(keys_sorted(t)) by {
                    assert forall|a: int, b: int| 0 <= a < b < t.len() implies text_lt(
                        (#[trigger] t[a]).0,
                        (#[trigger] t[b]).0,
                    ) by {
                        if b < i {
                            assert(t[a] == s[a] && t[b] == s[b]);
                        } else if b == i {
                            assert(t[a] == s[a]);
                        } else if a < i {
                            assert(t[a] == s[a] && t[b] == s[b - 1]);
                            assert(!text_lt(s[b - 1].0, k));
                            assert(text_lt(s[a].0, k));
                            if s[b - 1].0 != k {
                                lemma_text_lt_total(s[b - 1].0, k);
                            }
                            lemma_text_lt_transitive(s[a].0, k, s[b - 1].0);
                        } else if a == i {
                            assert(t[b] == s[b - 1]);
                            assert(!text_lt(s[b - 1].0, k));
                            assert(s[b - 1].0 != k);
                            lemma_text_lt_total(s[b - 1].0, k);
                        } else {
                            assert(t[a] == s[a - 1] && t[b] == s[b - 1]);
                        }
                    }
                }
                assert(t[i as int] == (k, value));
                lemma_lookup_at(t, i as int);
                assert forall|k2: Seq<char>| k2 != k implies lookup(t, k2) == lookup(s, k2) by {
                    if has_key(s, k2) {
                        let j = choose|j: int| 0 <= j < s.len() && (#[trigger] s[j]).0 == k2;
                        lemma_lookup_at(s, j);
                        if j < i {
                            assert(t[j] == s[j]);
                            lemma_lookup_at(t, j);
                        } else {
                            assert(t[j + 1] == s[j]);
                            lemma_lookup_at(t, j + 1);
                        }
                    }
                    if has_key(t, k2) {
                        let j = choose|j: int| 0 <= j < t.len() && (#[trigger] t[j]).0 == k2;
                        if j < i {
                            assert(t[j] == s[j]);
                        } else if j > i {
                            assert(t[j] == s[j - 1]);
                        }
                    }
                }
            }
            self.entries = entries;
            true
        }
    }

    /// Removes a key; returns its value if it was there.
    pub fn remove(&mut self, key: &str) -> (r: Option<T>)
        ensures
            r == lookup(old(self)@, key@),
            !has_key(final(self)@, key@),
            forall|k: Seq<char>| k != key@ ==> lookup(final(self)@, k) == lookup(old(self)@, k),
            final(self)@.len() == old(self)@.len() - if r is Some {
                1int
            } else {
                0int
            },
    {
        proof {
            use_type_invariant(&*self);
        }
        let (i, found) = self.find(key);
        let ghost s = self@;
        let ghost k = key@;
        if !found {
            assert(lookup(s, k) is None);
            return None;
        }
        let mut entries: Vec<(String, T)> = Vec::new();
        std::mem::swap(&mut entries, &mut self.entries);
        let removed = entries.remove(i);
        let ghost t = entries@.map_values(|e: (String, T)| (e.0@, e.1));
        proof {
            assert(t =~= s.remove(i as int));
            lemma_lookup_at(s, i as int);
            assert(s[i as int] == (removed.0@, removed.1));
            assert(keys_sorted(t)) by {
                assert forall|a: int, b: int| 0 <= a < b < t.len() implies text_lt(
                    (#[trigger] t[a]).0,
                    (#[trigger] t[b]).0,
                ) by {
                    if b < i {
                        assert(t[a] == s[a] && t[b] == s[b]);
                    } else if a < i {
                        assert(t[a] == s[a] && t[b] == s[b + 1]);
                    } else {
                        assert(t[a] == s[a + 1] && t[b] == s[b + 1]);
                    }
                }
            }
            assert(!has_key(t, k)) by {
                if has_key(t, k) {
                    let j = choose|j: int| 0 <= j < t.len() && (#[trigger] t[j]).0 == k;
                    if j < i {
                        assert(t[j] == s[j]);
                        assert(text_lt(s[j].0, s[i as int].0));
                    } else {
                        assert(t[j] == s[j + 1]);
                        assert(text_lt(s[i as int].0, s[j + 1].0));
                    }
                    lemma_text_lt_irreflexive(k);
                }
            }
            assert forall|k2: Seq<char>| k2 != k implies lookup(t, k2) == lookup(s, k2) by {
                if has_key(s, k2) {
                    let j = choose|j: int| 0 <= j < s.len() && (#[trigger] s[j]).0 == k2;
                    lemma_lookup_at(s, j);
                    if j < i {
                        assert(t[j] == s[j]);
                        lemma_lookup_at(t, j);
                    } else {
                        assert(j != i);
                        assert(t[j - 1] == s[j]);
                        lemma_lookup_at(t, j - 1);
                    }
                }
                if has_key(t, k2) {
                    let j = choose|j: int| 0 <= j < t.len() && (#[trigger] t[j]).0 == k2;
                    if j < i {
                        assert(t[j] == s[j]);
                    } else {
                        assert(t[j] == s[j + 1]);
                    }
                }
            }
        }
        self.entries = entries;
        Some(removed.1)
    }
}

} // verus!
