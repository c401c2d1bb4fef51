[package]
name = "jockey_cli"
version = "0.1.0"
edition = "2021"
publish = false

[dependencies]
base64 = "=0.23.1"
chrono = "=0.4.45"
clap = { version = "=4.6.7", features = ["derive"] }
colored = "=3.1.1"
env_logger = "=0.11.11"
flate2 = "=1.1.10"
rayon = "=1.12.0"
tokio = { version = "=1.53.2", features = ["rt-multi-thread", "macros", "fs"] }

[dev-dependencies]
serde_json = "=1.0.151"
serde_yaml = "*"
