pub mod error;
pub mod index;
pub mod table_heap;
pub mod tuple;
