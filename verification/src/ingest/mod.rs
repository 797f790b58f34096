pub mod mapping;
pub mod processing;
pub mod source;
