[package]
name = "feed_bridge"
version = "0.1.0"
edition = "2021"
publish = false

[dependencies]
async-trait = "0.1"
atrium-api = "0.25"
bytes = "1"
chrono = "0.4"
clap = { version = "4", features = ["derive", "env"] }
file-lock = "2"
html5ever = "0.26"
reqwest = "0.11"
rss = "2"
tokio = { version = "1", features = ["macros", "rt-multi-thread"] }
