[package]
name = "netabase_redb_txn"
version = "0.1.0"
edition = "2021"
publish = false

[dependencies]
redb = "=3.1.3"
