//! Answering queries over the MySQL protocol.
pub mod cell;
pub mod column;
pub mod query_result_writer;
pub mod response;
