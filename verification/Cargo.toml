[package]
name = "hexcombat"
version = "0.1.0"
edition = "2021"
publish = false

[dependencies]
argon2 = "*"
axum = { version = "*", features = ["ws"] }
dashmap = "*"
futures = "*"
password-hash = "*"
rmp-serde = "*"
serde = { version = "*", features = ["derive"] }
serde_json = "*"
tokio = { version = "*", features = ["macros", "net", "rt-multi-thread"] }
tower-sessions = "*"
uuid = { version = "*", features = ["serde", "v4"] }
