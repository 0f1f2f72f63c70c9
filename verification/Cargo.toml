[package]
name = "ctf"
version = "0.1.0"
edition = "2021"
publish = false

[dependencies]
chrono = { version = "0.4", features = ["serde"] }
serde = { version = "1", features = ["derive"] }
serde_json = "1"
crossterm = "*"
ratatui = "*"
rmcp = { version = "*", features = ["server", "macros", "schemars"] }
