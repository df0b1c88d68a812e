//! The core of an embeddable relational database: typed values, the catalog,
//! scalar expressions and their binder, an in-memory table store and the
//! operators that run on it.

pub mod binder;
pub mod catalog;
pub mod errors;
pub mod execution;
pub mod expression;
pub mod expression_laws;
pub mod hashing;
pub mod literal;
pub mod storage;
pub mod tuple;
pub mod types;
pub mod value_compute;
