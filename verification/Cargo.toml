[package]
name = "lithos"
version = "0.1.0"
edition = "2021"
publish = false

[dependencies]
libc = "*"
memmap2 = "*"
serde = { version = "*", features = ["derive"] }
serde_json = "*"
sonic-rs = "*"
thiserror = "*"
toml = "*"
tracing = "*"
tungstenite = "*"
