pub mod laws;
pub mod purge;
pub mod select;
