[package]
name = "gazelle"
version = "0.1.0"
edition = "2021"
publish = false

[dependencies]
backoff = { version = "*", features = ["tokio"] }
env_logger = "*"
log = "*"
reqwest = { version = "*", default-features = false, features = ["json"] }
serde_json = "*"
tokio = { version = "*", features = ["macros", "rt-multi-thread"] }
urlencoding = "*"
