[package]
name = "skill_manager_mcp"
version = "0.1.0"
edition = "2021"
publish = false

[dependencies]
yaml-rust2 = "*"
serde = { version = "1", features = ["derive"] }
serde_json = "1"
uuid = { version = "1", features = ["v4"] }
walkdir = "2"
rusqlite = { version = "*", features = ["bundled"] }
figment = { version = "0.10", features = ["toml", "env"] }
tracing = "0.1"
tracing-subscriber = { version = "0.3", features = ["env-filter"] }
tokio = { version = "1", features = ["full"] }
rmcp = { version = "*", features = ["server", "transport-io", "transport-streamable-http-server"] }
axum = "*"
salvo = { version = "*", features = ["affix-state", "serve-static"] }
