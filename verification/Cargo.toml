[package]
name = "storesync"
version = "0.1.0"
edition = "2021"
publish = false

[dependencies]
uuid = { version = "*", features = ["v4"] }
mime_guess = "*"
serde = { version = "*", features = ["derive"] }
serde_json = "*"
chrono = "*"
rusqlite = { version = "*", features = ["bundled"] }
tokio = { version = "*", features = ["rt", "rt-multi-thread", "macros", "time", "fs", "sync"] }
reqwest = { version = "*", default-features = false, features = ["json", "rustls-tls"] }
