//! The insertion-ordered maps that hold a clause's possibilities, with what
//! the `indexmap` crate promises of the few of their methods that the clause
//! logic calls. Their contents are named here; nothing else is known of them.

use vstd::prelude::*;

use indexmap::IndexMap;

use crate::algebra::assertion::Assertion;

verus! {

#[verifier::external_type_specification]
#[verifier::external_body]
#[verifier::reject_recursive_types(K)]
#[verifier::reject_recursive_types(V)]
#[verifier::reject_recursive_types(S)]
pub struct ExIndexMap<K, V, S>(IndexMap<K, V, S>);

/// The assertions of one variable, keyed by the assertion's hash.
pub type AssertionMap = IndexMap<u64, Assertion>;

/// The assertions of each variable, in the order the variables were added.
pub type Possibilities = IndexMap<String, AssertionMap>;

/// The entries of an assertion map, in their order: assertion key and
/// assertion.
pub uninterp spec fn assertion_entries(m: IndexMap<u64, Assertion>) -> Seq<(u64, Assertion)>;

/// The entries of a possibilities map, in their order: the variable id and
/// the entries of its assertion map.
pub uninterp spec fn possibility_entries(m: IndexMap<String, IndexMap<u64, Assertion>>) -> Seq<
    (Seq<char>, Seq<(u64, Assertion)>),
>;

/// No key occurs twice among the entries.
pub open spec fn keys_distinct<K, V>(s: Seq<(K, V)>) -> bool {
    forall|i: int, j: int| 0 <= i < j < s.len() ==> (#[trigger] s[i]).0 != (#[trigger] s[j]).0
}

/// Whether a key occurs among the entries.
pub open spec fn has_key<K, V>(s: Seq<(K, V)>, k: K) -> bool {
    exists|i: int| 0 <= i < s.len() && (#[trigger] s[i]).0 == k
}

/// Whether an entry's key is other than `k`.
pub open spec fn key_is_not<K, V>(k: K) -> spec_fn((K, V)) -> bool {
    |e: (K, V)| e.0 != k
}

/// The entries without the one of key `k`, the others keeping their order.
pub open spec fn without_key<K, V>(s: Seq<(K, V)>, k: K) -> Seq<(K, V)> {
    s.filter(key_is_not(k))
}

/// The entries after setting key `k` to `v`: an existing entry keeps its
/// place and takes the new value; a new key is added last.
pub open spec fn with_entry<K, V>(s: Seq<(K, V)>, k: K, v: V) -> Seq<(K, V)> {
    if has_key(s, k) {
        let i = choose|i: int| 0 <= i < s.len() && (#[trigger] s[i]).0 == k;
        s.update(i, (k, v))
    } else {
        s.push((k, v))
    }
}

/// The entries of an assertion map, copied out in order (`IndexMap::iter`).
#[verifier::external_body]
pub fn assertion_map_entries(m: &IndexMap<u64, Assertion>) -> (r: Vec<(u64, Assertion)>)
    ensures
        r@ == assertion_entries(*m),
        keys_distinct(r@),
{
    m.iter().map(|(k, v)| (*k, v.clone())).collect()
}

/// A copy of a possibilities map (`IndexMap::clone`): the same entries in the
/// same order.
#[verifier::external_body]
pub fn possibilities_clone(m: &Possibilities) -> (r: Possibilities)
    ensures
        possibility_entries(r) == possibility_entries(*m),
{
    m.clone()
}

/// The keys in their order (`IndexMap::keys`); no key occurs twice.
#[verifier::external_body]
pub fn possibilities_keys(m: &Possibilities) -> (r: Vec<String>)
    ensures
        r@.len() == possibility_entries(*m).len(),
        forall|i: int| 0 <= i < r@.len() ==> (#[trigger] r@[i])@ == possibility_entries(*m)[i].0,
        forall|i: int, j: int| 0 <= i < j < r@.len() ==> (#[trigger] r@[i])@ != (#[trigger] r@[j])@,
{
    m.keys().cloned().collect()
}

/// Whether the map has no entries (`IndexMap::is_empty`).
#[verifier::external_body]
pub fn possibilities_is_empty(m: &Possibilities) -> (r: bool)
    ensures
        r == (possibility_entries(*m).len() == 0),
{
    m.is_empty()
}

/// Removes the entry of a key, shifting the later ones down
/// (`IndexMap::shift_remove`).
#[verifier::external_body]
pub fn possibilities_shift_remove(m: &mut Possibilities, key: &String)
    ensures
        keys_distinct(possibility_entries(*final(m))),
        possibility_entries(*final(m)) == without_key(possibility_entries(*old(m)), key@),
{
    m.shift_remove(key);
}

/// Sets the assertion map of a key (`IndexMap::insert`): an existing key keeps
/// its place, a new one goes last.
#[verifier::external_body]
pub fn possibilities_insert(
    m: &mut Possibilities,
    key: String,
    value: IndexMap<u64, Assertion>,
)
    ensures
        keys_distinct(possibility_entries(*final(m))),
        possibility_entries(*final(m)) == with_entry(
            possibility_entries(*old(m)),
            key@,
            assertion_entries(value),
        ),
{
    m.insert(key, value);
}

/// The assertion map of a key (`IndexMap::get`).
#[verifier::external_body]
pub fn possibilities_get<'a>(m: &'a Possibilities, key: &str) -> (r: Option<&'a AssertionMap>)
    ensures
        r is Some <==> has_key(possibility_entries(*m), key@),
        r matches Some(v) ==> forall|i: int|
            0 <= i < possibility_entries(*m).len() && (#[trigger] possibility_entries(*m)[i]).0
                == key@ ==> assertion_entries(*v) == possibility_entries(*m)[i].1,
{
    m.get(key)
}

} // verus!
