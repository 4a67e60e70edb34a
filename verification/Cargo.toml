[package]
name = "glowmarkt"
version = "0.1.0"
edition = "2021"
publish = false

[dependencies]
clap = { version = "=4.6.7", features = ["derive", "env"] }
flexi_logger = "=0.31.10"
log = "=0.4.34"
reqwest = { version = "=0.13.5", default-features = false, features = ["json", "query"] }
serde = { version = "=1.0.229", features = ["derive"] }
serde_json = "=1.0.151"
time = { version = "=0.3.55", features = ["serde", "formatting", "parsing", "serde-well-known"] }
tokio = { version = "=1.53.2", features = ["macros", "rt-multi-thread"] }
