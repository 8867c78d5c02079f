pub mod error;
pub mod expression;
pub mod statement;
pub mod table_ref;
pub mod transformer;
pub mod statements;
