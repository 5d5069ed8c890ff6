use vstd::prelude::*;

verus! {

/// Which side of a comparison holds the value that is compared against.
#[derive(Clone, Copy, Debug, PartialEq, Eq, Structural)]
pub enum OtherValuePosition {
    Left,
    Right,
}

} // verus!
