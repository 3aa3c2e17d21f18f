[package]
name = "archive-core"
version = "0.1.0"
edition = "2021"
publish = false

[dependencies]
bzip2-rs = "0.1"
flate2 = { version = "1", default-features = false, features = ["rust_backend"] }
sevenz-rust2 = "*"
tar = { version = "0.4", default-features = false }
zip-forensic-core = "*"
forensic-vfs = "*"
tempfile = "3"
thiserror = "2"
