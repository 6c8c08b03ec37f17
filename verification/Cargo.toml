[package]
name = "rusty-reel"
version = "0.1.0"
edition = "2021"
publish = false

[dependencies]
dotenv = "0.15"
eyre = "0.6"
once_cell = "1"
poise = "0.5"
rand = "0.8"
reqwest = { version = "0.11", default-features = false, features = ["json"] }
serde = { version = "1", features = ["derive"] }
thiserror = "1"
tokio = { version = "1", features = ["macros", "rt-multi-thread"] }
tracing = "0.1"
uuid = { version = "1", features = ["serde"] }
