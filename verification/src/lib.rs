//! oxtub: a small relational database engine (buffer pool bookkeeping,
//! catalog, SQL binder, planner, optimizer and executors) whose logic is
//! specified and proved with Verus.
#![allow(unused_imports)]

pub mod buffer;
pub mod common;
pub mod types;
pub mod catalog;
pub mod query;
pub mod storage;
pub mod database;
pub mod repl;
