//! The operators of the execution pipeline.

pub mod create_table;
pub mod filter;
pub mod hash_join;
pub mod insert;
pub mod insert_laws;
pub mod join_laws;
