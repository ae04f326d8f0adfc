[package]
name = "neutrino"
version = "0.1.0"
edition = "2021"
publish = false

[dependencies]
uuid = { version = "*", features = ["v4"] }
chrono = "*"
serde = { version = "*", features = ["derive"] }
serde_json = "*"
serde_yaml = "*"
tokio = { version = "*", features = ["full"] }
reqwest = { version = "*", default-features = false, features = ["json"] }
axum = "*"
rusqlite = { version = "*", features = ["bundled"] }
tracing = "*"
tracing-subscriber = "*"
libc = "*"

[dev-dependencies]
rmpv = "*"
