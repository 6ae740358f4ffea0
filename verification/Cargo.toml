[package]
name = "rnccd"
version = "0.1.0"
edition = "2021"
publish = false

[dependencies]
anyhow = "*"
clap = { version = "*", features = ["derive"] }
log = "*"
reqwest = { version = "*", default-features = false, features = ["rustls-tls"] }
serde = { version = "*", features = ["derive"] }
serde_yaml = "*"
simple_logger = "*"
tempfile = "*"
tokio = { version = "*", features = ["rt-multi-thread", "macros", "time"] }
