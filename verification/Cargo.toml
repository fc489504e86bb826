[package]
name = "blueos_recorder"
version = "0.1.0"
edition = "2021"
publish = false

[dependencies]
anyhow = "*"
chrono = { version = "*", default-features = false, features = ["std", "alloc"] }
clap = { version = "*", features = ["derive"] }
env_logger = "*"
log = "*"
mcap = "*"
regex = "*"
serde_json = "*"
serde_json5 = "*"
shellexpand = "*"
tokio = { version = "*", features = ["macros", "rt-multi-thread"] }
zenoh = { version = "*", default-features = false, features = ["transport_tcp"] }
