use vstd::prelude::*;

use crate::algebra::index_map::has_key;
use crate::context::local_map::LocalMap;

verus! {

/// The variables that a `finally` block can see, with their types.
pub struct FinallyScope<T> {
    pub locals: LocalMap<T>,
}

impl<T> FinallyScope<T> {
    /// A scope with no variables.
    pub fn new() -> (r: Self)
        ensures
            r.locals@.len() == 0,
    {
        FinallyScope { locals: LocalMap::new() }
    }

    /// Whether the scope has a variable.
    pub fn contains(&self, var_id: &str) -> (r: bool)
        ensures
            r == has_key(self.locals@, var_id@),
    {
        self.locals.contains_key(var_id)
    }
}

impl<T> Default for FinallyScope<T> {
    /// A scope with no variables.
    fn default() -> (r: Self)
        ensures
            r.locals@.len() == 0,
    {
        Self::new()
    }
}

} // verus!
