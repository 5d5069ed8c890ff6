pub mod block;
pub mod local_map;
pub mod scope;
