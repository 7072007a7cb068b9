[package]
name = "rdl"
version = "0.1.0"
edition = "2021"
publish = false

[dependencies]
sha2 = "*"
hex = "*"
uuid = { version = "*", features = ["v4"] }
anyhow = "*"
chrono = "*"
clap = { version = "*", features = ["derive"] }
daemonize = "*"
futures = "*"
governor = "*"
indicatif = "*"
nix = { version = "*", features = ["signal"] }
num_cpus = "*"
reqwest = { version = "*", default-features = false, features = ["stream"] }
serde = { version = "*", features = ["derive"] }
serde_json = "*"
tokio = { version = "*", features = ["full"] }
