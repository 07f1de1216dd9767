[package]
name = "arbi_scan"
version = "0.1.0"
edition = "2021"
publish = false

[dependencies]
rust_decimal = { version = "*", features = ["maths"] }
serde = { version = "*", features = ["derive"] }
reqwest = { version = "*", default-features = false, features = ["blocking", "json", "rustls-tls"] }
clap = { version = "*", features = ["derive"] }
anyhow = "*"
thiserror = "*"
