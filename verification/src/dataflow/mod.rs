pub mod analyzer;
pub mod path;
pub mod unused_variables;
