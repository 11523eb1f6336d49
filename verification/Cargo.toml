[package]
name = "db_wrapper"
version = "0.1.0"
edition = "2021"
publish = false

[dependencies]
shodh-redb = "0.5"
log = "0.4"
thiserror = "2.0"
