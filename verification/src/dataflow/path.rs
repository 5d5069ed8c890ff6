use vstd::prelude::*;

verus! {

/// Which part of an array a data-flow step reads or writes.
#[derive(Clone, Copy, Debug, PartialEq, Eq, Hash, Structural)]
pub enum ArrayDataKind {
    ArrayKey,
    ArrayValue,
}

/// One step of a data-flow path. Array keys are held by their text; property
/// steps by the class name and the property name.
#[derive(Clone, Debug, PartialEq, Eq, Hash)]
pub enum PathKind {
    Default,
    UnknownArrayAccess(ArrayDataKind),
    UnknownArrayAssignment(ArrayDataKind),
    ArrayAccess(ArrayDataKind, String),
    ArrayAssignment(ArrayDataKind, String),
    RemoveArrayKey(String),
    PropertyAccess(String, String),
    PropertyAssignment(String, String),
    UnknownPropertyAccess,
    UnknownPropertyAssignment,
    Aggregate,
}

} // verus!
