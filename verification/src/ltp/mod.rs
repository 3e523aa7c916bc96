//! The layer of lists, tables and properties: heaps, property contexts and table contexts.

pub mod heap;
pub mod property;
pub mod heap_tree;
pub mod level_laws;
pub mod property_context;
pub mod shape;
pub mod table;
pub mod rebuild;
pub mod row_table;
pub mod heap_laws;
pub mod property_laws;
pub mod table_laws;
pub mod update_laws;
pub mod value_laws;
pub mod column_laws;
pub mod row_table_laws;
pub mod rebuild_laws;
