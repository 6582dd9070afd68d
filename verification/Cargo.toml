[package]
name = "rust_raft"
version = "0.1.0"
edition = "2021"
publish = false

[dependencies]
sled = "0.34"
serde_json = "1"
serde = { version = "1", features = ["derive"] }
anyhow = "1"
chrono = "0.4"
once_cell = "1"
tokio = { version = "1", features = ["rt-multi-thread", "macros", "time"] }
reqwest = { version = "0.12", default-features = false, features = ["rustls-tls"] }
actix-web = { version = "4", features = ["rustls-0_23"] }
rustls = { version = "0.23", default-features = false, features = ["ring", "std", "tls12", "logging"] }
rustls-pemfile = "2"
