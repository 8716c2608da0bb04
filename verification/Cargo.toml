[package]
name = "rdd"
version = "0.1.0"
edition = "2021"
publish = false

[dependencies]
clap = { version = "4", features = ["derive"] }
thiserror = "1"
sha2 = "0.10"
blake3 = { version = "1", default-features = false, features = ["pure"] }
