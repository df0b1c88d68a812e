[package]
name = "kip_sql"
version = "0.1.0"
edition = "2021"
publish = false

[dependencies]
ahash = "0.8.3"
itertools = "0.10"
sqlparser = "0.34"
async-trait = "0.1"
async-recursion = "1"
futures-async-stream = "0.2"
