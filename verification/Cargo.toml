[package]
name = "master_events"
version = "0.1.0"
edition = "2021"
publish = false

[dependencies]
time = { version = "0.3", features = ["formatting"] }
tokio = { version = "*", features = ["rt-multi-thread", "macros", "sync", "time", "net"] }
axum = { version = "*", features = ["ws"] }
axum-extra = { version = "*", features = ["typed-header"] }
headers = "*"
http = "*"
tower-http = { version = "*", features = ["cors", "timeout", "trace"] }
serde = { version = "*", features = ["derive"] }
serde_json = "*"
reqwest = { version = "*", default-features = false, features = ["json"] }
dotenvy = "*"
anyhow = "*"
tracing = "*"
tracing-subscriber = "*"
