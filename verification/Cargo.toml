[package]
name = "waterlevels"
version = "0.1.0"
edition = "2021"
publish = false

[dependencies]
actix-web = { version = "*", default-features = false, features = ["macros"] }
anyhow = "*"
env_logger = "*"
log = "*"
maud = "*"
serde = { version = "*", features = ["derive"] }
serde_qs = "*"
tokio = { version = "*", features = ["macros", "rt", "rt-multi-thread", "sync"] }
