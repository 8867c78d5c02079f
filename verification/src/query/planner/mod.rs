pub mod error;
pub mod expression;
pub mod plan;
pub mod transformer;
pub mod format;
pub mod meaning;
