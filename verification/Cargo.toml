[package]
name = "bulloak"
version = "0.1.0"
edition = "2021"
publish = false

[dependencies]
anyhow = "1"
clap = { version = "4", features = ["derive"] }
forge-fmt = "0.2.0"
glob = "0.3"
owo-colors = "4"
serde = { version = "1", features = ["derive"] }
