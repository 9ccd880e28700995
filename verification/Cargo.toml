[package]
name = "atomic_lib"
version = "0.1.0"
edition = "2021"
publish = false

[dependencies]
regex = "1"
serde_json = "1"
serde = { version = "1", features = ["derive"] }
log = "0.4"
tantivy = { version = "*", default-features = false, features = ["mmap"] }
