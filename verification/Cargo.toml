[package]
name = "centaur_session_store"
version = "0.1.0"
edition = "2021"
publish = false

[dependencies]
serde = { version = "1", features = ["derive"] }
serde_json = "1"
time = "0.3"
uuid = { version = "1", features = ["v4"] }
sqlx = { version = "0.8", default-features = false, features = ["runtime-tokio", "postgres", "json", "time", "migrate"] }
tokio = { version = "1", features = ["macros", "rt-multi-thread", "time", "signal", "net", "sync"] }
reqwest = { version = "0.12", default-features = false, features = ["json", "stream"] }
eventsource-stream = "0.2"
futures-util = "0.3"
anyhow = "1"
