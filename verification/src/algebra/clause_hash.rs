//! The hasher behind a clause's hash, with what it is fed recorded so that
//! a hash can be traced back to its input.

use vstd::prelude::*;

use ahash::AHasher;

verus! {

#[verifier::external_type_specification]
#[verifier::external_body]
pub struct ExAHasher(AHasher);

/// A fresh hasher (`AHasher::default`). Its keys are drawn once per process,
/// so nothing is stated of the hashes it gives.
#[verifier::external_body]
fn new_hasher() -> (r: AHasher) {
    AHasher::default()
}

/// Feeds a string to a hasher (`<String as Hash>::hash`).
#[verifier::external_body]
fn hash_string(value: &String, hasher: &mut AHasher) {
    std::hash::Hash::hash(value, hasher)
}

/// Feeds a 64-bit integer to a hasher (`<u64 as Hash>::hash`).
#[verifier::external_body]
fn hash_u64(value: u64, hasher: &mut AHasher) {
    std::hash::Hash::hash(&value, hasher)
}

/// Feeds a 32-bit integer to a hasher (`<i32 as Hash>::hash`).
#[verifier::external_body]
fn hash_i32(value: i32, hasher: &mut AHasher) {
    std::hash::Hash::hash(&value, hasher)
}

/// The hash of what a hasher was fed (`AHasher::finish`).
#[verifier::external_body]
fn finish_hasher(hasher: &AHasher) -> (r: u64) {
    std::hash::Hasher::finish(hasher)
}

/// One thing fed to the clause hasher: a variable id, a separator marker,
/// or an assertion key.
pub enum HashInput {
    Text(Seq<char>),
    Marker(i32),
    Key(u64),
}

/// A hasher together with the sequence of what it was fed so far. Only the
/// methods below feed it, so the sequence is exactly what the hasher got.
pub struct FeedHasher {
    hasher: AHasher,
    fed: Ghost<Seq<HashInput>>,
}

impl FeedHasher {
    /// What the hasher was fed, in order.
    pub closed spec fn fed(&self) -> Seq<HashInput> {
        self.fed@
    }

    /// A hasher fed nothing yet.
    pub fn new() -> (r: Self)
        ensures
            r.fed() == Seq::<HashInput>::empty(),
    {
        FeedHasher { hasher: new_hasher(), fed: Ghost(Seq::empty()) }
    }

    /// Feeds a string.
    pub fn text(&mut self, value: &String)
        ensures
            final(self).fed() == old(self).fed().push(HashInput::Text(value@)),
    {
        hash_string(value, &mut self.hasher);
        self.fed = Ghost(self.fed@.push(HashInput::Text(value@)));
    }

    /// Feeds a marker.
    pub fn marker(&mut self, value: i32)
        ensures
            final(self).fed() == old(self).fed().push(HashInput::Marker(value)),
    {
        hash_i32(value, &mut self.hasher);
        self.fed = Ghost(self.fed@.push(HashInput::Marker(value)));
    }

    /// Feeds an assertion key.
    pub fn key(&mut self, value: u64)
        ensures
            final(self).fed() == old(self).fed().push(HashInput::Key(value)),
    {
        hash_u64(value, &mut self.hasher);
        self.fed = Ghost(self.fed@.push(HashInput::Key(value)));
    }

    /// The hash of what was fed, with a record of what that was.
    pub fn finish(&self) -> (r: Digest)
        ensures
            r.input() == self.fed(),
    {
        Digest { value: finish_hasher(&self.hasher), input: self.fed }
    }
}

/// A hash value together with the sequence that was fed to the hasher that
/// gave it. Only `FeedHasher::finish` makes one.
#[derive(Clone, Copy)]
pub struct Digest {
    value: u64,
    input: Ghost<Seq<HashInput>>,
}

impl Digest {
    /// The hash value.
    pub closed spec fn value(&self) -> u64 {
        self.value
    }

    /// What was fed to the hasher that gave the value, in order.
    pub closed spec fn input(&self) -> Seq<HashInput> {
        self.input@
    }

    /// The hash value.
    pub fn hash_value(&self) -> (r: u64)
        ensures
            r == self.value(),
    {
        self.value
    }
}

} // verus!
