pub mod expression;
pub mod statement;
pub mod table_ref;
pub mod planner;
pub mod binder;
pub mod executor;
pub mod optimizer;
pub mod engine;
pub mod pipeline;
pub mod bound;
pub mod accepted;
pub mod parser;
pub mod syntax_tree;
