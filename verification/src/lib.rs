//! Verified core of a query server: answering queries over the MySQL protocol, making the
//! partitions of Parquet tables, and filling virtual columns.
#![allow(unused_imports)]

pub mod batches;
pub mod error;
pub mod file_metas;
pub mod fill_virtual_columns;
pub mod mysql;
pub mod parquet_meta;
pub mod partition;
pub mod row_selection;
pub mod schema;
pub mod text;
