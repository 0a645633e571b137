[package]
name = "thorn"
version = "0.1.0"
edition = "2021"
publish = false

[dependencies]
postgres-types = "0.2"
tokio-postgres = { version = "0.7", default-features = false }
thiserror = "1"
paste = "1"
