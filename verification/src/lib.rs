pub mod ids;
pub mod index;
pub mod laws;
pub mod tree;
pub mod types;
