pub mod assertion;
pub mod assertion_set;
pub mod index_map;
pub mod clause;
pub mod clause_hash;
