use vstd::prelude::*;

use crate::algebra::clause::Clause;
use crate::context::block::{BlockContext, VariableSet};
use crate::context::local_map::LocalMap;

verus! {

/// What the analysis of an `if` condition leaves for its branches: the
/// context inside the body and after the statement, the variables the
/// condition referred to or assigned (with the offset of the assignment),
/// and the clauses known on entry.
pub struct IfConditionalScope<T> {
    pub if_body_context: BlockContext<T>,
    pub post_if_context: BlockContext<T>,
    pub conditionally_referenced_variable_ids: VariableSet,
    pub assigned_in_conditional_variable_ids: LocalMap<usize>,
    pub entry_clauses: Vec<Clause>,
}

} // verus!
