[package]
name = "claude_terminal"
version = "0.1.0"
edition = "2021"
publish = false

[dependencies]
portable-pty = "*"
uuid = { version = "*", features = ["v4"] }
chrono = "*"
serde = { version = "*", features = ["derive"] }
serde_json = "*"
tokio = { version = "*", features = ["rt-multi-thread", "sync", "macros"] }
rusqlite = { version = "*", features = ["bundled"] }
directories = "*"
open = "*"
