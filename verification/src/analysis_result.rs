use vstd::prelude::*;

use crate::algebra::index_map::has_key;
use crate::context::block::VariableSet;
use crate::context::local_map::{keys_sorted, lemma_lookup_at, lookup, LocalMap};
use crate::text::{lemma_text_lt_irreflexive, text_lt};

verus! {

/// The issues recorded for a file; none when it has no entry.
pub open spec fn issues_at<I>(s: Seq<(Seq<char>, Vec<I>)>, k: Seq<char>) -> Seq<I> {
    match lookup(s, k) {
        Some(v) => v@,
        None => seq![],
    }
}

/// The count recorded for an issue kind; zero when it has no entry.
pub open spec fn count_at(s: Seq<(Seq<char>, usize)>, k: Seq<char>) -> nat {
    match lookup(s, k) {
        Some(c) => c as nat,
        None => 0,
    }
}

/// What the analysis of a set of files produced: the issues found in each
/// file and in its definitions, the number of issues of each kind, the
/// functions to migrate, and the files that changed meanwhile. Files and
/// functions are keyed by their names.
pub struct AnalysisResult<I> {
    pub emitted_issues: LocalMap<Vec<I>>,
    pub emitted_definition_issues: LocalMap<Vec<I>>,
    pub issue_counts: LocalMap<usize>,
    pub functions_to_migrate: LocalMap<bool>,
    pub has_invalid_hack_files: bool,
    pub changed_during_analysis_files: VariableSet,
}

impl<I> AnalysisResult<I> {
    /// A result with nothing recorded.
    pub fn new() -> (r: Self)
        ensures
            r.emitted_issues@.len() == 0,
            r.emitted_definition_issues@.len() == 0,
            r.issue_counts@.len() == 0,
            r.functions_to_migrate@.len() == 0,
            !r.has_invalid_hack_files,
            r.changed_during_analysis_files@.len() == 0,
    {
        AnalysisResult {
            emitted_issues: LocalMap::new(),
            emitted_definition_issues: LocalMap::new(),
            issue_counts: LocalMap::new(),
            functions_to_migrate: LocalMap::new(),
            has_invalid_hack_files: false,
            changed_during_analysis_files: LocalMap::new(),
        }
    }

    /// Adds another result to this one: the issues of each file are
    /// appended, the counts of each kind added, the functions to migrate and
    /// changed files merged (the other result's flags winning), and the
    /// invalid-file flag or-ed. Definition issues are left as they are.
    pub fn extend(&mut self, other: Self)
        requires
            forall|k: Seq<char>|
                #![trigger lookup(old(self).issue_counts@, k)]
                #![trigger lookup(other.issue_counts@, k)]
                count_at(old(self).issue_counts@, k) + count_at(other.issue_counts@, k) <= usize::MAX,
        ensures
            forall|k: Seq<char>|
                #![trigger lookup(final(self).emitted_issues@, k)]
                #![trigger has_key(final(self).emitted_issues@, k)]
                has_key(final(self).emitted_issues@, k) == (has_key(old(self).emitted_issues@, k) || has_key(
                    other.emitted_issues@,
                    k,
                )) && issues_at(final(self).emitted_issues@, k) == issues_at(old(self).emitted_issues@, k)
                    + issues_at(other.emitted_issues@, k),
            forall|k: Seq<char>|
                #![trigger lookup(final(self).issue_counts@, k)]
                #![trigger has_key(final(self).issue_counts@, k)]
                has_key(final(self).issue_counts@, k) == (has_key(old(self).issue_counts@, k) || has_key(
                    other.issue_counts@,
                    k,
                )) && count_at(final(self).issue_counts@, k) == count_at(old(self).issue_counts@, k)
                    + count_at(other.issue_counts@, k),
            forall|k: Seq<char>|
                #![trigger lookup(final(self).functions_to_migrate@, k)]
                lookup(final(self).functions_to_migrate@, k) == if has_key(other.functions_to_migrate@, k) {
                    lookup(other.functions_to_migrate@, k)
                } else {
                    lookup(old(self).functions_to_migrate@, k)
                },
            forall|k: Seq<char>|
                #![trigger lookup(final(self).changed_during_analysis_files@, k)]
                #![trigger has_key(final(self).changed_during_analysis_files@, k)]
                has_key(final(self).changed_during_analysis_files@, k) == (has_key(
                    old(self).changed_during_analysis_files@,
                    k,
                ) || has_key(other.changed_during_analysis_files@, k)),
            final(self).has_invalid_hack_files == (old(self).has_invalid_hack_files
                || other.has_invalid_hack_files),
            final(self).emitted_definition_issues == old(self).emitted_definition_issues,
    {
        let AnalysisResult {
            emitted_issues,
            emitted_definition_issues: _,
            issue_counts,
            functions_to_migrate,
            has_invalid_hack_files,
            changed_during_analysis_files,
        } = other;
        let ghost other_files = changed_during_analysis_files@;
        merge_issues(&mut self.emitted_issues, emitted_issues);
        merge_counts(&mut self.issue_counts, issue_counts);
        merge_flags(&mut self.functions_to_migrate, functions_to_migrate);
        merge_flags(&mut self.changed_during_analysis_files, changed_during_analysis_files);
        proof {
            assert forall|k: Seq<char>| #![trigger has_key(self.changed_during_analysis_files@, k)]
                has_key(self.changed_during_analysis_files@, k) == (has_key(
                    old(self).changed_during_analysis_files@,
                    k,
                ) || has_key(other_files, k)) by {
                assert(lookup(self.changed_during_analysis_files@, k) is Some == has_key(
                    self.changed_during_analysis_files@,
                    k,
                ));
            }
        }
        self.has_invalid_hack_files = self.has_invalid_hack_files || has_invalid_hack_files;
    }

    /// All issues of each file: those found in it followed by those found in
    /// its definitions, for the files with at least one issue.
    pub fn get_all_issues(&self) -> (r: LocalMap<Vec<&I>>)
        ensures
            forall|k: Seq<char>|
                #![trigger lookup(r@, k)]
                (lookup(r@, k) is Some <==> (issues_at(self.emitted_issues@, k) + issues_at(
                    self.emitted_definition_issues@,
                    k,
                )).len() > 0) && (lookup(r@, k) matches Some(v) ==> v@.map_values(|x: &I| *x)
                    == issues_at(self.emitted_issues@, k) + issues_at(
                    self.emitted_definition_issues@,
                    k,
                )),
    {
        let mut issues: LocalMap<Vec<&I>> = LocalMap::new();
        let n = self.emitted_issues.len();
        for i in 0..n
            invariant
                n == self.emitted_issues@.len(),
                keys_sorted(self.emitted_issues@),
                forall|k: Seq<char>|
                    #![trigger lookup(issues@, k)]
                    (lookup(issues@, k) is Some <==> (issues_at(self.emitted_issues@, k).len() > 0
                        && exists|j: int| 0 <= j < i && (#[trigger] self.emitted_issues@[j]).0 == k))
                        && (lookup(issues@, k) matches Some(v) ==> v@.map_values(|x: &I| *x)
                        == issues_at(self.emitted_issues@, k)),
        {
            let (file_path, file_issues) = self.emitted_issues.entry_at(i);
            proof {
                lemma_lookup_at(self.emitted_issues@, i as int);
            }
            if file_issues.len() > 0 {
                let refs = references(file_issues);
                issues.insert(file_path.clone(), refs);
            }
            proof {
                assert forall|k: Seq<char>| #![trigger lookup(issues@, k)]
                    (lookup(issues@, k) is Some <==> (issues_at(self.emitted_issues@, k).len() > 0
                    && exists|j: int| 0 <= j < i + 1 && (#[trigger] self.emitted_issues@[j]).0 == k)) by {
                    if k == file_path@ {
                        assert(self.emitted_issues@[i as int].0 == k);
                    }
                }
            }
        }
        proof {
            assert forall|k: Seq<char>| #![trigger lookup(issues@, k)]
                (lookup(issues@, k) is Some <==> issues_at(self.emitted_issues@, k).len() > 0) by {
                if issues_at(self.emitted_issues@, k).len() > 0 {
                    let j = choose|j: int| 0 <= j < n && (#[trigger] self.emitted_issues@[j]).0 == k;
                }
            }
        }
        let m = self.emitted_definition_issues.len();
        for i in 0..m
            invariant
                m == self.emitted_definition_issues@.len(),
                keys_sorted(self.emitted_definition_issues@),
                forall|k: Seq<char>|
                    #![trigger lookup(issues@, k)]
                    (lookup(issues@, k) is Some <==> (issues_at(self.emitted_issues@, k) + if exists|j: int|
                        0 <= j < i && (#[trigger] self.emitted_definition_issues@[j]).0 == k {
                        issues_at(self.emitted_definition_issues@, k)
                    } else {
                        Seq::<I>::empty()
                    }).len() > 0) && (lookup(issues@, k) matches Some(v) ==> v@.map_values(|x: &I| *x)
                        == issues_at(self.emitted_issues@, k) + if exists|j: int|
                        0 <= j < i && (#[trigger] self.emitted_definition_issues@[j]).0 == k {
                        issues_at(self.emitted_definition_issues@, k)
                    } else {
                        Seq::<I>::empty()
                    }),
        {
            let (file_path, file_definition_issues) = self.emitted_definition_issues.entry_at(i);
            proof {
                lemma_lookup_at(self.emitted_definition_issues@, i as int);
                assert(self.emitted_definition_issues@[i as int].0 == file_path@);
            }
            let refs = references(file_definition_issues);
            match issues.remove(file_path.as_str()) {
                Some(mut file_issues) => {
                    let ghost start = file_issues@;
                    let mut more = refs;
                    file_issues.append(&mut more);
                    assert(file_issues@.map_values(|x: &I| *x) =~= start.map_values(|x: &I| *x) + refs@.map_values(|x: &I| *x));
                    issues.insert(file_path.clone(), file_issues);
                },
                None => {
                    if refs.len() > 0 {
                        issues.insert(file_path.clone(), refs);
                    }
                },
            }
            proof {
                assert forall|k: Seq<char>| #![trigger lookup(issues@, k)]
                    (lookup(issues@, k) is Some <==> (issues_at(self.emitted_issues@, k) + if exists|j: int|
                        0 <= j < i + 1 && (#[trigger] self.emitted_definition_issues@[j]).0 == k {
                        issues_at(self.emitted_definition_issues@, k)
                    } else {
                        Seq::<I>::empty()
                    }).len() > 0) && (lookup(issues@, k) matches Some(v) ==> v@.map_values(|x: &I| *x)
                        == issues_at(self.emitted_issues@, k) + if exists|j: int|
                        0 <= j < i + 1 && (#[trigger] self.emitted_definition_issues@[j]).0 == k {
                        issues_at(self.emitted_definition_issues@, k)
                    } else {
                        Seq::<I>::empty()
                    }) by {
                    if k == file_path@ {
                        assert(self.emitted_definition_issues@[i as int].0 == k);
                        if exists|j: int| 0 <= j < i && (#[trigger] self.emitted_definition_issues@[j]).0 == k {
                            let j = choose|j: int| 0 <= j < i && (#[trigger] self.emitted_definition_issues@[j]).0 == k;
                            assert(self.emitted_definition_issues@[j].0 != self.emitted_definition_issues@[i as int].0) by {
                                lemma_text_lt_irreflexive(k);
                            }
                        }
                        assert(issues_at(self.emitted_issues@, k) + Seq::<I>::empty() =~= issues_at(self.emitted_issues@, k));
                        assert(Seq::<I>::empty() + issues_at(self.emitted_definition_issues@, k) =~= issues_at(self.emitted_definition_issues@, k));
                    } else {
                        if exists|j: int| 0 <= j < i + 1 && (#[trigger] self.emitted_definition_issues@[j]).0 == k {
                            let j = choose|j: int| 0 <= j < i + 1 && (#[trigger] self.emitted_definition_issues@[j]).0 == k;
                            assert(j < i);
                        }
                    }
                }
            }
        }
        proof {
            assert forall|k: Seq<char>| #![trigger lookup(issues@, k)]
                (lookup(issues@, k) is Some <==> (issues_at(self.emitted_issues@, k) + issues_at(
                    self.emitted_definition_issues@,
                    k,
                )).len() > 0) && (lookup(issues@, k) matches Some(v) ==> v@.map_values(|x: &I| *x)
                    == issues_at(self.emitted_issues@, k) + issues_at(
                    self.emitted_definition_issues@,
                    k,
                )) by {
                if has_key(self.emitted_definition_issues@, k) {
                    let j = choose|j: int| 0 <= j < m && (#[trigger] self.emitted_definition_issues@[j]).0 == k;
                } else {
                    assert(issues_at(self.emitted_issues@, k) + issues_at(self.emitted_definition_issues@, k) =~= issues_at(self.emitted_issues@, k) + Seq::<I>::empty());
                }
            }
        }
        issues
    }
}

/// References to each item, in order.
fn references<I>(items: &Vec<I>) -> (r: Vec<&I>)
    ensures
        r@.map_values(|x: &I| *x) == items@,
{
    let mut r: Vec<&I> = Vec::new();
    let n = items.len();
    for i in 0..n
        invariant
            n == items@.len(),
            r@.map_values(|x: &I| *x) == items@.take(i as int),
    {
        let ghost before = r@;
        r.push(&items[i]);
        assert(r@.map_values(|x: &I| *x) =~= before.map_values(|x: &I| *x).push(items@[i as int]));
        assert(items@.take(i + 1) =~= items@.take(i as int).push(items@[i as int]));
    }
    assert(items@.take(n as int) =~= items@);
    r
}

/// Whether key `k` occurs at position `n` or later.
pub open spec fn in_suffix<V>(o: Seq<(Seq<char>, V)>, n: int, k: Seq<char>) -> bool {
    exists|j: int| n <= j < o.len() && (#[trigger] o[j]).0 == k
}

/// Taking one more entry from the back: the keys from `i` on are those from
/// `i + 1` on and `o[i].0`, which does not occur after `i`.
proof fn lemma_suffix_step<V>(o: Seq<(Seq<char>, V)>, i: int)
    requires
        keys_sorted(o),
        0 <= i < o.len(),
    ensures
        forall|k: Seq<char>| #[trigger] in_suffix(o, i, k) == (k == o[i].0 || in_suffix(o, i + 1, k)),
        !in_suffix(o, i + 1, o[i].0),
        lookup(o, o[i].0) == Some(o[i].1),
{
    assert forall|k: Seq<char>| #[trigger] in_suffix(o, i, k) == (k == o[i].0 || in_suffix(o, i + 1, k)) by {
        if in_suffix(o, i, k) && k != o[i].0 {
            let j = choose|j: int| i <= j < o.len() && (#[trigger] o[j]).0 == k;
            assert(j != i);
        }
        if k == o[i].0 {
            assert(o[i].0 == k);
        }
    }
    if in_suffix(o, i + 1, o[i].0) {
        let j = choose|j: int| i + 1 <= j < o.len() && (#[trigger] o[j]).0 == o[i].0;
        assert(text_lt(o[i].0, o[j].0));
        lemma_text_lt_irreflexive(o[i].0);
    }
    lemma_lookup_at(o, i);
}

/// A key occurs from position 0 on exactly when the entries hold it.
proof fn lemma_suffix_all<V>(o: Seq<(Seq<char>, V)>)
    ensures
        forall|k: Seq<char>| #[trigger] in_suffix(o, 0, k) == has_key(o, k),
{
    assert forall|k: Seq<char>| #[trigger] in_suffix(o, 0, k) == has_key(o, k) by {
        if has_key(o, k) {
            let j = choose|j: int| 0 <= j < o.len() && (#[trigger] o[j]).0 == k;
        }
    }
}

/// Appends each file's issues from `other` to those of `target`.
fn merge_issues<I>(target: &mut LocalMap<Vec<I>>, other: LocalMap<Vec<I>>)
    ensures
        forall|k: Seq<char>|
            #![trigger lookup(final(target)@, k)]
            #![trigger has_key(final(target)@, k)]
            has_key(final(target)@, k) == (has_key(old(target)@, k) || has_key(other@, k)) && issues_at(
                final(target)@,
                k,
            ) == issues_at(old(target)@, k) + issues_at(other@, k),
{
    let ghost o = other@;
    let mut entries = other.into_entries();
    while entries.len() > 0
        invariant
            keys_sorted(o),
            entries@.len() <= o.len(),
            entries@.map_values(|e: (String, Vec<I>)| (e.0@, e.1)) == o.take(entries@.len() as int),
            forall|k: Seq<char>|
                #![trigger lookup(target@, k)]
                #![trigger has_key(target@, k)]
                has_key(target@, k) == (has_key(old(target)@, k) || in_suffix(o, entries@.len() as int, k))
                    && issues_at(target@, k) == issues_at(old(target)@, k) + if in_suffix(
                    o,
                    entries@.len() as int,
                    k,
                ) {
                    issues_at(o, k)
                } else {
                    Seq::<I>::empty()
                },
        decreases entries@.len(),
    {
        let ghost len = entries@.len() as int;
        let ghost before = target@;
        let (file, mut more) = entries.pop().unwrap();
        proof {
            assert(o.take(len)[len - 1] == (file@, more));
            assert(entries@.map_values(|e: (String, Vec<I>)| (e.0@, e.1)) =~= o.take(len - 1));
            lemma_suffix_step(o, len - 1);
            assert(issues_at(before, file@) == issues_at(old(target)@, file@));
            assert(issues_at(old(target)@, file@) + Seq::<I>::empty() =~= issues_at(old(target)@, file@));
        }
        let mut current = match target.remove(file.as_str()) {
            Some(v) => v,
            None => Vec::new(),
        };
        assert(current@ == issues_at(before, file@));
        current.append(&mut more);
        target.insert(file, current);
        proof {
            assert forall|k: Seq<char>| #![trigger lookup(target@, k)] #![trigger has_key(target@, k)]
                has_key(target@, k) == (has_key(old(target)@, k) || in_suffix(o, len - 1, k))
                    && issues_at(target@, k) == issues_at(old(target)@, k) + if in_suffix(o, len - 1, k) {
                    issues_at(o, k)
                } else {
                    Seq::<I>::empty()
                } by {
                if k != file@ {
                    assert(lookup(target@, k) == lookup(before, k));
                    assert(in_suffix(o, len - 1, k) == in_suffix(o, len, k));
                } else {
                    assert(in_suffix(o, len - 1, k));
                }
            }
        }
    }
    proof {
        lemma_suffix_all(o);
        assert forall|k: Seq<char>| #![trigger lookup(target@, k)]
            issues_at(target@, k) == issues_at(old(target)@, k) + issues_at(o, k) by {
            if !has_key(o, k) {
                assert(issues_at(old(target)@, k) + Seq::<I>::empty() =~= issues_at(old(target)@, k));
            }
        }
    }
}

/// Adds each kind's count from `other` to that of `target`.
fn merge_counts(target: &mut LocalMap<usize>, other: LocalMap<usize>)
    requires
        forall|k: Seq<char>|
            #![trigger lookup(old(target)@, k)]
            #![trigger lookup(other@, k)]
            count_at(old(target)@, k) + count_at(other@, k) <= usize::MAX,
    ensures
        forall|k: Seq<char>|
            #![trigger lookup(final(target)@, k)]
            #![trigger has_key(final(target)@, k)]
            has_key(final(target)@, k) == (has_key(old(target)@, k) || has_key(other@, k)) && count_at(
                final(target)@,
                k,
            ) == count_at(old(target)@, k) + count_at(other@, k),
{
    let ghost o = other@;
    let mut entries = other.into_entries();
    while entries.len() > 0
        invariant
            keys_sorted(o),
            entries@.len() <= o.len(),
            entries@.map_values(|e: (String, usize)| (e.0@, e.1)) == o.take(entries@.len() as int),
            forall|k: Seq<char>|
                #![trigger lookup(old(target)@, k)]
                #![trigger lookup(o, k)]
                count_at(old(target)@, k) + count_at(o, k) <= usize::MAX,
            forall|k: Seq<char>|
                #![trigger lookup(target@, k)]
                #![trigger has_key(target@, k)]
                has_key(target@, k) == (has_key(old(target)@, k) || in_suffix(o, entries@.len() as int, k))
                    && count_at(target@, k) == count_at(old(target)@, k) + if in_suffix(
                    o,
                    entries@.len() as int,
                    k,
                ) {
                    count_at(o, k)
                } else {
                    0
                },
        decreases entries@.len(),
    {
        let ghost len = entries@.len() as int;
        let ghost before = target@;
        let (kind, count) = entries.pop().unwrap();
        proof {
            assert(o.take(len)[len - 1] == (kind@, count));
            assert(entries@.map_values(|e: (String, usize)| (e.0@, e.1)) =~= o.take(len - 1));
            lemma_suffix_step(o, len - 1);
            assert(count_at(before, kind@) == count_at(old(target)@, kind@));
            assert(count_at(o, kind@) == count);
            assert(count_at(old(target)@, kind@) + count_at(o, kind@) <= usize::MAX);
        }
        let current: usize = match target.get(kind.as_str()) {
            Some(c) => *c,
            None => 0,
        };
        target.insert(kind, current + count);
        proof {
            assert forall|k: Seq<char>| #![trigger lookup(target@, k)] #![trigger has_key(target@, k)]
                has_key(target@, k) == (has_key(old(target)@, k) || in_suffix(o, len - 1, k))
                    && count_at(target@, k) == count_at(old(target)@, k) + if in_suffix(o, len - 1, k) {
                    count_at(o, k)
                } else {
                    0
                } by {
                if k != kind@ {
                    assert(lookup(target@, k) == lookup(before, k));
                    assert(in_suffix(o, len - 1, k) == in_suffix(o, len, k));
                } else {
                    assert(in_suffix(o, len - 1, k));
                }
            }
        }
    }
    proof {
        lemma_suffix_all(o);
    }
}

/// Sets each key of `other` in `target` to its value in `other`.
fn merge_flags<V>(target: &mut LocalMap<V>, other: LocalMap<V>)
    ensures
        forall|k: Seq<char>|
            #![trigger lookup(final(target)@, k)]
            lookup(final(target)@, k) == if has_key(other@, k) {
                lookup(other@, k)
            } else {
                lookup(old(target)@, k)
            },
{
    let ghost o = other@;
    let mut entries = other.into_entries();
    while entries.len() > 0
        invariant
            keys_sorted(o),
            entries@.len() <= o.len(),
            entries@.map_values(|e: (String, V)| (e.0@, e.1)) == o.take(entries@.len() as int),
            forall|k: Seq<char>|
                #![trigger lookup(target@, k)]
                lookup(target@, k) == if in_suffix(o, entries@.len() as int, k) {
                    lookup(o, k)
                } else {
                    lookup(old(target)@, k)
                },
        decreases entries@.len(),
    {
        let ghost len = entries@.len() as int;
        let ghost before = target@;
        let (key, value) = entries.pop().unwrap();
        proof {
            assert(o.take(len)[len - 1] == (key@, value));
            assert(entries@.map_values(|e: (String, V)| (e.0@, e.1)) =~= o.take(len - 1));
            lemma_suffix_step(o, len - 1);
        }
        target.insert(key, value);
        proof {
            assert forall|k: Seq<char>| #![trigger lookup(target@, k)]
                lookup(target@, k) == if in_suffix(o, len - 1, k) {
                    lookup(o, k)
                } else {
                    lookup(old(target)@, k)
                } by {
                if k != key@ {
                    assert(lookup(target@, k) == lookup(before, k));
                    assert(in_suffix(o, len - 1, k) == in_suffix(o, len, k));
                } else {
                    assert(in_suffix(o, len - 1, k));
                }
            }
        }
    }
    proof {
        lemma_suffix_all(o);
    }
}

} // verus!
