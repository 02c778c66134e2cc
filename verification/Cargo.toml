[package]
name = "explorer_index"
version = "0.1.0"
edition = "2021"
publish = false

[dependencies]
anyhow = "1"
bitcoin-cash = "*"
chrono = "0.4"
chrono-humanize = "*"
hex = "0.4"
maud = "*"
serde = { version = "1", features = ["derive"] }
serde_json = "1"
tokio = { version = "1", features = ["macros", "rt-multi-thread"] }
warp = "0.3"
