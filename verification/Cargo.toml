[package]
name = "datt"
version = "0.1.0"
edition = "2021"
publish = false

[dependencies]
clap = { version = "4", features = ["derive"] }
futures = "0.3"
regex = "1"
reqwest = "0.12"
tokio = { version = "1", features = ["macros", "rt-multi-thread"] }
