use vstd::prelude::*;

use crate::text::{decimal, push_decimal, push_signed_decimal, signed_decimal};

verus! {

/// A fact about the value of an expression, as the analyzer records it in a
/// clause. Type payloads are held by their canonical type ids, key payloads by
/// their key atoms and variable payloads by the variable's id.
#[derive(Debug, Clone, PartialEq, Eq, Hash)]
pub enum Assertion {
    Any,
    IsType(String),
    IsNotType(String),
    Falsy,
    Truthy,
    IsIdentical(String),
    IsNotIdentical(String),
    IsEqual(String),
    IsNotEqual(String),
    IsEqualIsset,
    IsIsset,
    IsNotIsset,
    HasStringArrayAccess,
    HasIntOrStringArrayAccess,
    ArrayKeyExists,
    ArrayKeyDoesNotExist,
    InArray(String),
    NotInArray(String),
    HasArrayKey(String),
    DoesNotHaveArrayKey(String),
    HasNonnullEntryForKey(String),
    DoesNotHaveNonnullEntryForKey(String),
    Empty,
    NonEmpty,
    NonEmptyCountable(bool),
    EmptyCountable,
    HasExactCount(usize),
    HasAtLeastCount(usize),
    DoesNotHaveExactCount(usize),
    DoesNotHasAtLeastCount(usize),
    IsLessThan(i64),
    IsLessThanOrEqual(i64),
    IsGreaterThan(i64),
    IsGreaterThanOrEqual(i64),
    IsLessThanFromBound(i64),
    IsLessThanOrEqualFromBound(i64),
    IsGreaterThanFromBound(i64),
    IsGreaterThanOrEqualFromBound(i64),
    IsLessThanVariable(String),
    IsLessThanOrEqualVariable(String),
    IsGreaterThanVariable(String),
    IsGreaterThanOrEqualVariable(String),
    Countable,
    NotCountable(bool),
}

/// Whether a text starts with `!`.
pub open spec fn starts_with_bang(s: Seq<char>) -> bool {
    s.len() > 0 && s[0] == '!'
}

impl Assertion {
    /// The assertion that holds exactly when this one fails, as far as the
    /// analyzer can express it; assertions without a usable opposite negate to
    /// `Any`.
    pub open spec fn negation(self) -> Assertion {
        match self {
            Assertion::Any => Assertion::Any,
            Assertion::IsType(x) => Assertion::IsNotType(x),
            Assertion::IsNotType(x) => Assertion::IsType(x),
            Assertion::Falsy => Assertion::Truthy,
            Assertion::Truthy => Assertion::Falsy,
            Assertion::IsIdentical(x) => Assertion::IsNotIdentical(x),
            Assertion::IsNotIdentical(x) => Assertion::IsIdentical(x),
            Assertion::IsEqual(x) => Assertion::IsNotEqual(x),
            Assertion::IsNotEqual(x) => Assertion::IsEqual(x),
            Assertion::IsEqualIsset => Assertion::Any,
            Assertion::IsIsset => Assertion::IsNotIsset,
            Assertion::IsNotIsset => Assertion::IsIsset,
            Assertion::HasStringArrayAccess => Assertion::Any,
            Assertion::HasIntOrStringArrayAccess => Assertion::Any,
            Assertion::ArrayKeyExists => Assertion::ArrayKeyDoesNotExist,
            Assertion::ArrayKeyDoesNotExist => Assertion::ArrayKeyExists,
            Assertion::InArray(x) => Assertion::NotInArray(x),
            Assertion::NotInArray(x) => Assertion::InArray(x),
            Assertion::HasArrayKey(x) => Assertion::DoesNotHaveArrayKey(x),
            Assertion::DoesNotHaveArrayKey(x) => Assertion::HasArrayKey(x),
            Assertion::HasNonnullEntryForKey(x) => Assertion::DoesNotHaveNonnullEntryForKey(x),
            Assertion::DoesNotHaveNonnullEntryForKey(x) => Assertion::HasNonnullEntryForKey(x),
            Assertion::Empty => Assertion::NonEmpty,
            Assertion::NonEmpty => Assertion::Empty,
            Assertion::NonEmptyCountable(x) => if x { Assertion::EmptyCountable } else { Assertion::Any },
            Assertion::EmptyCountable => Assertion::NonEmptyCountable(true),
            Assertion::HasExactCount(x) => Assertion::DoesNotHaveExactCount(x),
            Assertion::HasAtLeastCount(x) => Assertion::DoesNotHasAtLeastCount(x),
            Assertion::DoesNotHaveExactCount(x) => Assertion::HasExactCount(x),
            Assertion::DoesNotHasAtLeastCount(x) => Assertion::HasAtLeastCount(x),
            Assertion::IsLessThan(x) => Assertion::IsGreaterThanOrEqual(x),
            Assertion::IsLessThanOrEqual(x) => Assertion::IsGreaterThan(x),
            Assertion::IsGreaterThan(x) => Assertion::IsLessThanOrEqual(x),
            Assertion::IsGreaterThanOrEqual(x) => Assertion::IsLessThan(x),
            Assertion::IsLessThanFromBound(x) => Assertion::Any,
            Assertion::IsLessThanOrEqualFromBound(x) => Assertion::Any,
            Assertion::IsGreaterThanFromBound(x) => Assertion::Any,
            Assertion::IsGreaterThanOrEqualFromBound(x) => Assertion::Any,
            Assertion::IsLessThanVariable(x) => Assertion::IsGreaterThanOrEqualVariable(x),
            Assertion::IsLessThanOrEqualVariable(x) => Assertion::IsGreaterThanVariable(x),
            Assertion::IsGreaterThanVariable(x) => Assertion::IsLessThanOrEqualVariable(x),
            Assertion::IsGreaterThanOrEqualVariable(x) => Assertion::IsLessThanVariable(x),
            Assertion::Countable => Assertion::NotCountable(true),
            Assertion::NotCountable(x) => Assertion::Countable,
        }
    }

    /// Whether the assertion states that something does not hold.
    pub open spec fn spec_is_negation(self) -> bool {
        match self {
            Assertion::Falsy | Assertion::IsNotType(_) | Assertion::IsNotEqual(_) | Assertion::IsNotIdentical(_) | Assertion::IsNotIsset | Assertion::NotInArray(_) | Assertion::ArrayKeyDoesNotExist | Assertion::DoesNotHaveArrayKey(_) | Assertion::DoesNotHaveExactCount(_) | Assertion::DoesNotHaveNonnullEntryForKey(_) | Assertion::DoesNotHasAtLeastCount(_) | Assertion::EmptyCountable | Assertion::Empty | Assertion::NotCountable(_) => true,
            _ => false,
        }
    }

    /// The type id that the assertion compares against, for the six
    /// type-carrying kinds.
    pub open spec fn spec_type_id(self) -> Option<String> {
        match self {
            Assertion::IsIdentical(x) => Some(x),
            Assertion::IsNotIdentical(x) => Some(x),
            Assertion::IsType(x) => Some(x),
            Assertion::IsNotType(x) => Some(x),
            Assertion::IsEqual(x) => Some(x),
            Assertion::IsNotEqual(x) => Some(x),
            _ => None,
        }
    }

    /// Negating twice gives the assertion back, for every assertion whose
    /// negation is not `Any`, but `NotCountable(false)`, whose negation
    /// `Countable` negates to `NotCountable(true)`.
    pub proof fn lemma_negation_involutive(self)
        requires
            self.negation() != Assertion::Any,
            self != Assertion::NotCountable(false),
        ensures
            self.negation().negation() == self,
    {
    }

    /// Returns the negation of the assertion.
    pub fn get_negation(&self) -> (r: Assertion)
        ensures
            r == self.negation(),
    {
        match self {
            Assertion::Any => Assertion::Any,
            Assertion::IsType(x) => Assertion::IsNotType(x.clone()),
            Assertion::IsNotType(x) => Assertion::IsType(x.clone()),
            Assertion::Falsy => Assertion::Truthy,
            Assertion::Truthy => Assertion::Falsy,
            Assertion::IsIdentical(x) => Assertion::IsNotIdentical(x.clone()),
            Assertion::IsNotIdentical(x) => Assertion::IsIdentical(x.clone()),
            Assertion::IsEqual(x) => Assertion::IsNotEqual(x.clone()),
            Assertion::IsNotEqual(x) => Assertion::IsEqual(x.clone()),
            Assertion::IsEqualIsset => Assertion::Any,
            Assertion::IsIsset => Assertion::IsNotIsset,
            Assertion::IsNotIsset => Assertion::IsIsset,
            Assertion::HasStringArrayAccess => Assertion::Any,
            Assertion::HasIntOrStringArrayAccess => Assertion::Any,
            Assertion::ArrayKeyExists => Assertion::ArrayKeyDoesNotExist,
            Assertion::ArrayKeyDoesNotExist => Assertion::ArrayKeyExists,
            Assertion::InArray(x) => Assertion::NotInArray(x.clone()),
            Assertion::NotInArray(x) => Assertion::InArray(x.clone()),
            Assertion::HasArrayKey(x) => Assertion::DoesNotHaveArrayKey(x.clone()),
            Assertion::DoesNotHaveArrayKey(x) => Assertion::HasArrayKey(x.clone()),
            Assertion::HasNonnullEntryForKey(x) => Assertion::DoesNotHaveNonnullEntryForKey(x.clone()),
            Assertion::DoesNotHaveNonnullEntryForKey(x) => Assertion::HasNonnullEntryForKey(x.clone()),
            Assertion::Empty => Assertion::NonEmpty,
            Assertion::NonEmpty => Assertion::Empty,
            Assertion::NonEmptyCountable(x) => if *x { Assertion::EmptyCountable } else { Assertion::Any },
            Assertion::EmptyCountable => Assertion::NonEmptyCountable(true),
            Assertion::HasExactCount(x) => Assertion::DoesNotHaveExactCount(*x),
            Assertion::HasAtLeastCount(x) => Assertion::DoesNotHasAtLeastCount(*x),
            Assertion::DoesNotHaveExactCount(x) => Assertion::HasExactCount(*x),
            Assertion::DoesNotHasAtLeastCount(x) => Assertion::HasAtLeastCount(*x),
            Assertion::IsLessThan(x) => Assertion::IsGreaterThanOrEqual(*x),
            Assertion::IsLessThanOrEqual(x) => Assertion::IsGreaterThan(*x),
            Assertion::IsGreaterThan(x) => Assertion::IsLessThanOrEqual(*x),
            Assertion::IsGreaterThanOrEqual(x) => Assertion::IsLessThan(*x),
            Assertion::IsLessThanFromBound(x) => Assertion::Any,
            Assertion::IsLessThanOrEqualFromBound(x) => Assertion::Any,
            Assertion::IsGreaterThanFromBound(x) => Assertion::Any,
            Assertion::IsGreaterThanOrEqualFromBound(x) => Assertion::Any,
            Assertion::IsLessThanVariable(x) => Assertion::IsGreaterThanOrEqualVariable(x.clone()),
            Assertion::IsLessThanOrEqualVariable(x) => Assertion::IsGreaterThanVariable(x.clone()),
            Assertion::IsGreaterThanVariable(x) => Assertion::IsLessThanOrEqualVariable(x.clone()),
            Assertion::IsGreaterThanOrEqualVariable(x) => Assertion::IsLessThanVariable(x.clone()),
            Assertion::Countable => Assertion::NotCountable(true),
            Assertion::NotCountable(x) => Assertion::Countable,
        }
    }

    /// Whether the assertion states that something does not hold.
    pub fn is_negation(&self) -> (r: bool)
        ensures
            r == self.spec_is_negation(),
    {
        match self {
            Assertion::Falsy | Assertion::IsNotType(_) | Assertion::IsNotEqual(_) | Assertion::IsNotIdentical(_) | Assertion::IsNotIsset | Assertion::NotInArray(_) | Assertion::ArrayKeyDoesNotExist | Assertion::DoesNotHaveArrayKey(_) | Assertion::DoesNotHaveExactCount(_) | Assertion::DoesNotHaveNonnullEntryForKey(_) | Assertion::DoesNotHasAtLeastCount(_) | Assertion::EmptyCountable | Assertion::Empty | Assertion::NotCountable(_) => true,
            _ => false,
        }
    }

    /// A copy of the assertion.
    pub fn duplicate(&self) -> (r: Assertion)
        ensures
            r == *self,
    {
        match self {
            Assertion::Any => Assertion::Any,
            Assertion::IsType(x) => Assertion::IsType(x.clone()),
            Assertion::IsNotType(x) => Assertion::IsNotType(x.clone()),
            Assertion::Falsy => Assertion::Falsy,
            Assertion::Truthy => Assertion::Truthy,
            Assertion::IsIdentical(x) => Assertion::IsIdentical(x.clone()),
            Assertion::IsNotIdentical(x) => Assertion::IsNotIdentical(x.clone()),
            Assertion::IsEqual(x) => Assertion::IsEqual(x.clone()),
            Assertion::IsNotEqual(x) => Assertion::IsNotEqual(x.clone()),
            Assertion::IsEqualIsset => Assertion::IsEqualIsset,
            Assertion::IsIsset => Assertion::IsIsset,
            Assertion::IsNotIsset => Assertion::IsNotIsset,
            Assertion::HasStringArrayAccess => Assertion::HasStringArrayAccess,
            Assertion::HasIntOrStringArrayAccess => Assertion::HasIntOrStringArrayAccess,
            Assertion::ArrayKeyExists => Assertion::ArrayKeyExists,
            Assertion::ArrayKeyDoesNotExist => Assertion::ArrayKeyDoesNotExist,
            Assertion::InArray(x) => Assertion::InArray(x.clone()),
            Assertion::NotInArray(x) => Assertion::NotInArray(x.clone()),
            Assertion::HasArrayKey(x) => Assertion::HasArrayKey(x.clone()),
            Assertion::DoesNotHaveArrayKey(x) => Assertion::DoesNotHaveArrayKey(x.clone()),
            Assertion::HasNonnullEntryForKey(x) => Assertion::HasNonnullEntryForKey(x.clone()),
            Assertion::DoesNotHaveNonnullEntryForKey(x) => Assertion::DoesNotHaveNonnullEntryForKey(x.clone()),
            Assertion::Empty => Assertion::Empty,
            Assertion::NonEmpty => Assertion::NonEmpty,
            Assertion::NonEmptyCountable(x) => Assertion::NonEmptyCountable(*x),
            Assertion::EmptyCountable => Assertion::EmptyCountable,
            Assertion::HasExactCount(x) => Assertion::HasExactCount(*x),
            Assertion::HasAtLeastCount(x) => Assertion::HasAtLeastCount(*x),
            Assertion::DoesNotHaveExactCount(x) => Assertion::DoesNotHaveExactCount(*x),
            Assertion::DoesNotHasAtLeastCount(x) => Assertion::DoesNotHasAtLeastCount(*x),
            Assertion::IsLessThan(x) => Assertion::IsLessThan(*x),
            Assertion::IsLessThanOrEqual(x) => Assertion::IsLessThanOrEqual(*x),
            Assertion::IsGreaterThan(x) => Assertion::IsGreaterThan(*x),
            Assertion::IsGreaterThanOrEqual(x) => Assertion::IsGreaterThanOrEqual(*x),
            Assertion::IsLessThanFromBound(x) => Assertion::IsLessThanFromBound(*x),
            Assertion::IsLessThanOrEqualFromBound(x) => Assertion::IsLessThanOrEqualFromBound(*x),
            Assertion::IsGreaterThanFromBound(x) => Assertion::IsGreaterThanFromBound(*x),
            Assertion::IsGreaterThanOrEqualFromBound(x) => Assertion::IsGreaterThanOrEqualFromBound(*x),
            Assertion::IsLessThanVariable(x) => Assertion::IsLessThanVariable(x.clone()),
            Assertion::IsLessThanOrEqualVariable(x) => Assertion::IsLessThanOrEqualVariable(x.clone()),
            Assertion::IsGreaterThanVariable(x) => Assertion::IsGreaterThanVariable(x.clone()),
            Assertion::IsGreaterThanOrEqualVariable(x) => Assertion::IsGreaterThanOrEqualVariable(x.clone()),
            Assertion::Countable => Assertion::Countable,
            Assertion::NotCountable(x) => Assertion::NotCountable(*x),
        }
    }

    /// The assertion's short textual form: its kind, with the type id, key,
    /// count, bound or variable it carries.
    pub open spec fn atom(self) -> Seq<char> {
        match self {
            Assertion::Any => "any"@,
            Assertion::IsType(x) => x@,
            Assertion::IsNotType(x) => "!"@ + x@,
            Assertion::Falsy => "falsy"@,
            Assertion::Truthy => "truthy"@,
            Assertion::IsIdentical(x) => "="@ + x@,
            Assertion::IsNotIdentical(x) => "!="@ + x@,
            Assertion::IsEqual(x) => "~"@ + x@,
            Assertion::IsNotEqual(x) => "!~"@ + x@,
            Assertion::IsEqualIsset => "=isset"@,
            Assertion::IsIsset => "isset"@,
            Assertion::IsNotIsset => "!isset"@,
            Assertion::HasStringArrayAccess => "=string-array-access"@,
            Assertion::HasIntOrStringArrayAccess => "=int-or-string-array-access"@,
            Assertion::ArrayKeyExists => "array-key-exists"@,
            Assertion::ArrayKeyDoesNotExist => "!array-key-exists"@,
            Assertion::InArray(x) => "=in-array-"@ + x@,
            Assertion::NotInArray(x) => "!=in-array-"@ + x@,
            Assertion::HasArrayKey(x) => "=has-array-key-"@ + x@,
            Assertion::DoesNotHaveArrayKey(x) => "!=has-array-key-"@ + x@,
            Assertion::HasNonnullEntryForKey(x) => "=has-nonnull-entry-for-"@ + x@,
            Assertion::DoesNotHaveNonnullEntryForKey(x) => "!=has-nonnull-entry-for-"@ + x@,
            Assertion::Empty => "empty"@,
            Assertion::NonEmpty => "non-empty"@,
            Assertion::NonEmptyCountable(b) => if b { "non-empty-countable"@ } else { "=non-empty-countable"@ },
            Assertion::EmptyCountable => "empty-countable"@,
            Assertion::HasExactCount(x) => "has-exactly-"@ + decimal(x as nat),
            Assertion::HasAtLeastCount(x) => "has-at-least-"@ + decimal(x as nat),
            Assertion::DoesNotHaveExactCount(x) => "!has-exactly-"@ + decimal(x as nat),
            Assertion::DoesNotHasAtLeastCount(x) => "has-at-most-"@ + decimal(x as nat),
            Assertion::IsLessThan(x) => "is-less-than-"@ + signed_decimal(x as int),
            Assertion::IsLessThanOrEqual(x) => "is-less-than-or-equal-"@ + signed_decimal(x as int),
            Assertion::IsGreaterThan(x) => "is-greater-than-"@ + signed_decimal(x as int),
            Assertion::IsGreaterThanOrEqual(x) => "is-greater-than-or-equal-"@ + signed_decimal(x as int),
            Assertion::IsLessThanFromBound(x) => "is-less-than-from-bound-"@ + signed_decimal(x as int),
            Assertion::IsLessThanOrEqualFromBound(x) => "is-less-than-or-equal-from-bound-"@ + signed_decimal(x as int),
            Assertion::IsGreaterThanFromBound(x) => "is-greater-than-from-bound-"@ + signed_decimal(x as int),
            Assertion::IsGreaterThanOrEqualFromBound(x) => "is-greater-than-or-equal-from-bound-"@ + signed_decimal(x as int),
            Assertion::IsLessThanVariable(x) => "is-less-than-variable-"@ + x@,
            Assertion::IsLessThanOrEqualVariable(x) => "is-less-than-or-equal-variable-"@ + x@,
            Assertion::IsGreaterThanVariable(x) => "is-greater-than-variable-"@ + x@,
            Assertion::IsGreaterThanOrEqualVariable(x) => "is-greater-than-or-equal-variable-"@ + x@,
            Assertion::Countable => "countable"@,
            Assertion::NotCountable(_) => "!countable"@,
        }
    }

    /// Negating an assertion writes or removes a leading `!` in its short
    /// form: where the negation's short form starts with `!`, it is `!`
    /// followed by the assertion's, and the other way round. (A type id that
    /// itself starts with `!` is left out: its `!`s cannot be told apart.)
    pub proof fn lemma_negation_atom(self)
        requires
            !(self matches Assertion::IsType(x) && x@.len() > 0 && x@[0] == '!'),
            !(self matches Assertion::IsNotType(x) && x@.len() > 0 && x@[0] == '!'),
        ensures
            starts_with_bang(self.negation().atom()) ==> self.negation().atom() == "!"@ + self.atom(),
            starts_with_bang(self.atom()) ==> self.atom() == "!"@ + self.negation().atom(),
    {
        reveal_strlit("!");
        reveal_strlit("!=");
        reveal_strlit("!=has-array-key-");
        reveal_strlit("!=has-nonnull-entry-for-");
        reveal_strlit("!=in-array-");
        reveal_strlit("!array-key-exists");
        reveal_strlit("!countable");
        reveal_strlit("!has-exactly-");
        reveal_strlit("!isset");
        reveal_strlit("!~");
        reveal_strlit("=");
        reveal_strlit("=has-array-key-");
        reveal_strlit("=has-nonnull-entry-for-");
        reveal_strlit("=in-array-");
        reveal_strlit("=int-or-string-array-access");
        reveal_strlit("=isset");
        reveal_strlit("=non-empty-countable");
        reveal_strlit("=string-array-access");
        reveal_strlit("any");
        reveal_strlit("array-key-exists");
        reveal_strlit("countable");
        reveal_strlit("empty");
        reveal_strlit("empty-countable");
        reveal_strlit("falsy");
        reveal_strlit("has-at-least-");
        reveal_strlit("has-at-most-");
        reveal_strlit("has-exactly-");
        reveal_strlit("is-greater-than-");
        reveal_strlit("is-greater-than-from-bound-");
        reveal_strlit("is-greater-than-or-equal-");
        reveal_strlit("is-greater-than-or-equal-from-bound-");
        reveal_strlit("is-greater-than-or-equal-variable-");
        reveal_strlit("is-greater-than-variable-");
        reveal_strlit("is-less-than-");
        reveal_strlit("is-less-than-from-bound-");
        reveal_strlit("is-less-than-or-equal-");
        reveal_strlit("is-less-than-or-equal-from-bound-");
        reveal_strlit("is-less-than-or-equal-variable-");
        reveal_strlit("is-less-than-variable-");
        reveal_strlit("isset");
        reveal_strlit("non-empty");
        reveal_strlit("non-empty-countable");
        reveal_strlit("truthy");
        reveal_strlit("~");
        match self {
            Assertion::IsType(x) => {
                assert("!"@ + x@ == "!"@ + x@);
            },
            _ => {},
        }
        assert(self.negation().atom() =~= self.negation().atom());
    }

    /// Returns the assertion's short textual form.
    pub fn to_atom(&self) -> (r: String)
        ensures
            r@ == self.atom(),
    {
        let mut s = String::new();
        match self {
            Assertion::Any => {
                s.append("any");
            },
            Assertion::IsType(x) => {
                s.append(x.as_str());
            },
            Assertion::IsNotType(x) => {
                s.append("!");
                s.append(x.as_str());
            },
            Assertion::Falsy => {
                s.append("falsy");
            },
            Assertion::Truthy => {
                s.append("truthy");
            },
            Assertion::IsIdentical(x) => {
                s.append("=");
                s.append(x.as_str());
            },
            Assertion::IsNotIdentical(x) => {
                s.append("!=");
                s.append(x.as_str());
            },
            Assertion::IsEqual(x) => {
                s.append("~");
                s.append(x.as_str());
            },
            Assertion::IsNotEqual(x) => {
                s.append("!~");
                s.append(x.as_str());
            },
            Assertion::IsEqualIsset => {
                s.append("=isset");
            },
            Assertion::IsIsset => {
                s.append("isset");
            },
            Assertion::IsNotIsset => {
                s.append("!isset");
            },
            Assertion::HasStringArrayAccess => {
                s.append("=string-array-access");
            },
            Assertion::HasIntOrStringArrayAccess => {
                s.append("=int-or-string-array-access");
            },
            Assertion::ArrayKeyExists => {
                s.append("array-key-exists");
            },
            Assertion::ArrayKeyDoesNotExist => {
                s.append("!array-key-exists");
            },
            Assertion::InArray(x) => {
                s.append("=in-array-");
                s.append(x.as_str());
            },
            Assertion::NotInArray(x) => {
                s.append("!=in-array-");
                s.append(x.as_str());
            },
            Assertion::HasArrayKey(x) => {
                s.append("=has-array-key-");
                s.append(x.as_str());
            },
            Assertion::DoesNotHaveArrayKey(x) => {
                s.append("!=has-array-key-");
                s.append(x.as_str());
            },
            Assertion::HasNonnullEntryForKey(x) => {
                s.append("=has-nonnull-entry-for-");
                s.append(x.as_str());
            },
            Assertion::DoesNotHaveNonnullEntryForKey(x) => {
                s.append("!=has-nonnull-entry-for-");
                s.append(x.as_str());
            },
            Assertion::Empty => {
                s.append("empty");
            },
            Assertion::NonEmpty => {
                s.append("non-empty");
            },
            Assertion::NonEmptyCountable(b) => {
                if *b {
                    s.append("non-empty-countable");
                } else {
                    s.append("=non-empty-countable");
                }
            },
            Assertion::EmptyCountable => {
                s.append("empty-countable");
            },
            Assertion::HasExactCount(x) => {
                s.append("has-exactly-");
                push_decimal(&mut s, *x as u64);
            },
            Assertion::HasAtLeastCount(x) => {
                s.append("has-at-least-");
                push_decimal(&mut s, *x as u64);
            },
            Assertion::DoesNotHaveExactCount(x) => {
                s.append("!has-exactly-");
                push_decimal(&mut s, *x as u64);
            },
            Assertion::DoesNotHasAtLeastCount(x) => {
                s.append("has-at-most-");
                push_decimal(&mut s, *x as u64);
            },
            Assertion::IsLessThan(x) => {
                s.append("is-less-than-");
                push_signed_decimal(&mut s, *x);
            },
            Assertion::IsLessThanOrEqual(x) => {
                s.append("is-less-than-or-equal-");
                push_signed_decimal(&mut s, *x);
            },
            Assertion::IsGreaterThan(x) => {
                s.append("is-greater-than-");
                push_signed_decimal(&mut s, *x);
            },
            Assertion::IsGreaterThanOrEqual(x) => {
                s.append("is-greater-than-or-equal-");
                push_signed_decimal(&mut s, *x);
            },
            Assertion::IsLessThanFromBound(x) => {
                s.append("is-less-than-from-bound-");
                push_signed_decimal(&mut s, *x);
            },
            Assertion::IsLessThanOrEqualFromBound(x) => {
                s.append("is-less-than-or-equal-from-bound-");
                push_signed_decimal(&mut s, *x);
            },
            Assertion::IsGreaterThanFromBound(x) => {
                s.append("is-greater-than-from-bound-");
                push_signed_decimal(&mut s, *x);
            },
            Assertion::IsGreaterThanOrEqualFromBound(x) => {
                s.append("is-greater-than-or-equal-from-bound-");
                push_signed_decimal(&mut s, *x);
            },
            Assertion::IsLessThanVariable(x) => {
                s.append("is-less-than-variable-");
                s.append(x.as_str());
            },
            Assertion::IsLessThanOrEqualVariable(x) => {
                s.append("is-less-than-or-equal-variable-");
                s.append(x.as_str());
            },
            Assertion::IsGreaterThanVariable(x) => {
                s.append("is-greater-than-variable-");
                s.append(x.as_str());
            },
            Assertion::IsGreaterThanOrEqualVariable(x) => {
                s.append("is-greater-than-or-equal-variable-");
                s.append(x.as_str());
            },
            Assertion::Countable => {
                s.append("countable");
            },
            Assertion::NotCountable(_) => {
                s.append("!countable");
            },
        }
        s
    }

    /// The type id of a type-carrying assertion.
    pub fn get_type_id(&self) -> (r: Option<&String>)
        ensures
            r matches Some(s) ==> self.spec_type_id() == Some(*s),
            r is None <==> self.spec_type_id() is None,
    {
        match self {
            Assertion::IsIdentical(x) => Some(x),
            Assertion::IsNotIdentical(x) => Some(x),
            Assertion::IsType(x) => Some(x),
            Assertion::IsNotType(x) => Some(x),
            Assertion::IsEqual(x) => Some(x),
            Assertion::IsNotEqual(x) => Some(x),
            _ => None,
        }
    }
}

} // verus!
