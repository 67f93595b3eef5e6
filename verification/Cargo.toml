[package]
name = "sqsearch"
version = "0.1.0"
edition = "2021"
publish = false

[dependencies]
anyhow = "*"
clap = { version = "*", features = ["derive"] }
env_logger = "*"
libc = "*"
log = "*"
rusqlite = { version = "*", features = ["bundled", "vtab"] }
rusqlite_migration = "*"
serde = { version = "*", features = ["derive"] }
thiserror = "*"
toml = "*"
walkdir = "*"
