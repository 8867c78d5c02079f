pub mod catalog;
pub mod column;
pub mod error;
pub mod index;
pub mod schema;
pub mod table;
pub mod types;
