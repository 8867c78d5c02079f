pub mod alignment;
pub mod strings;
pub mod position;
