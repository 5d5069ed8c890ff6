pub mod variable;
pub mod arithmetic;
