[package]
name = "soundcheck"
version = "0.1.0"
edition = "2021"
publish = false

[dependencies]
unicode-normalization = "*"
serde = { version = "*", features = ["derive"] }
serde_json = "*"
ts-rs = "*"
thiserror = "*"
clap = { version = "*", features = ["derive"] }
anyhow = "*"
tracing = "*"
tracing-subscriber = { version = "*", features = ["env-filter"] }
ebur128 = "*"
rubato = "*"
beat-this = "*"
