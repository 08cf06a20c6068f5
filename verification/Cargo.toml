[package]
name = "lqs"
version = "0.1.0"
edition = "2021"
publish = false

[dependencies]
configparser = "3"
pad = "0.1"
clap = { version = "4", features = ["derive"] }
dirs = "5"
futures = "0.3"
postgres = "0.19"
tokio-postgres = "0.7"
tokio = { version = "1", features = ["macros", "rt-multi-thread"] }
serde_json = "1"
