[package]
name = "sarex"
version = "0.1.0"
edition = "2021"
publish = false

[dependencies]
bson = { version = "2", features = ["chrono-0_4"] }
clap = { version = "4", features = ["derive"] }
dirs = "5"
env_logger = "0.10"
futures = "0.3"
graphviz-rust = "0.6"
log = "0.4"
mongodb = "2"
rand = "0.8"
serde = { version = "1", features = ["derive"] }
serde_json = "1"
tokio = { version = "1", features = ["macros", "rt-multi-thread"] }
