[package]
name = "hotshot_consensus"
version = "0.1.0"
edition = "2021"
publish = false

[dependencies]
bincode = "=1.3.3"
either = "=1.19.0"
serde = { version = "=1.0.229", features = ["derive"] }
snafu = "=0.7.5"
