//! Logical export of a relational schema as a SQL script: a safe emission
//! order for objects that refer to one another, SQL literals for typed
//! column values, and multi-row `INSERT` statements of bounded size.

pub mod insert;
pub mod insert_laws;
pub mod literal;
pub mod literal_laws;
pub mod logger;
pub mod order;
pub mod order_laws;
pub mod script;
pub mod text;
pub mod views;

pub use crate::insert::{compute_column_name, export_data, insert_statements, Column, InsertBatch};
pub use crate::literal::{cast_data, quote, to_date_string, to_string, ColumnType, RawValue,
    UnsupportedType};
pub use crate::order::{order, order_tables, reorder_vec};
pub use crate::script::{export_functions, export_stored_procs, export_tables, export_triggers,
    export_views, write_header, write_postfix, write_prefix, Definition, Routine};
pub use crate::views::order_views;
