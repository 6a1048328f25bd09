[package]
name = "discord_data_loader"
version = "0.1.0"
edition = "2021"
publish = false

[dependencies]
csv = "1"
indicatif = "*"
rusqlite = { version = "*", features = ["bundled"] }
serde = { version = "1", features = ["derive"] }
serde_json = "1"
