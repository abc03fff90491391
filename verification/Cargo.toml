[package]
name = "ramp_pipeline"
version = "0.1.0"
edition = "2021"
publish = false

[dependencies]
anyhow = "=1.0.104"
bincode = "1"
clap = { version = "=3.2.25", features = ["derive"] }
csv = "=1.4.0"
fs-err = "=2.11.0"
log = "=0.4.34"
rand = "=0.8.8"
serde = { version = "1", features = ["derive"] }
simplelog = "=0.11.2"
tokio = { version = "=1.54.1", features = ["macros", "rt-multi-thread"] }
