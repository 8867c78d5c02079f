pub mod error;
pub mod expression;
pub mod sort;
pub mod limit;
pub mod aggregation;
pub mod engine;
pub mod seq_scan;
pub mod filter;
pub mod projection;
pub mod values;
pub mod insert;
pub mod delete;
pub mod update;
pub mod join;
pub mod nested_loop_join;
pub mod nested_index_join;
