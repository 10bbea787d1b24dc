[package]
name = "novatype"
version = "0.1.0"
edition = "2021"
publish = false

[dependencies]
serde = { version = "1", features = ["derive"] }
bincode = "1"
redb = "2"
interprocess = "2"
ureq = { version = "2", default-features = false, features = ["json"] }
dirs = "5"
