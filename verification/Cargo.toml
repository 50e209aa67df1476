[package]
name = "netcanv"
version = "0.1.0"
edition = "2021"
publish = false

[dependencies]
rand = "0.8"
bincode = "1"
serde = { version = "1", features = ["derive"] }
tungstenite = { version = "0.17", default-features = false }
thiserror = "1"
clap = { version = "4", features = ["derive"] }
