pub mod conditional_scope;
pub mod finally_scope;
