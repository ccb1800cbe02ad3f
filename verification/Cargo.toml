[package]
name = "parser"
version = "0.1.0"
edition = "2021"
publish = false

[dependencies]
cstree = "0.12"
pg_query = "0.8"
