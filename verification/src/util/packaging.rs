pub mod fns;
pub mod structs;
