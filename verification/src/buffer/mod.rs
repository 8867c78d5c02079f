pub mod replacer;
pub mod bpm;
pub mod page;
