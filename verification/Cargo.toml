[package]
name = "caption_engine"
version = "0.1.0"
edition = "2021"
publish = false

[dependencies]
anyhow = "1"
async-trait = "0.1"
chrono = "0.4"
dashmap = "6"
dotenvy = "0.15"
futures-util = "0.3"
poise = "0.6"
serde = { version = "1", features = ["derive"] }
serde_json = "1"
serenity = { version = "0.12", default-features = false, features = ["cache", "client", "gateway", "model", "rustls_backend", "voice"] }
songbird = { version = "0.5", default-features = false, features = ["driver", "gateway", "serenity", "rustls", "receive"] }
tokio = { version = "1", features = ["rt-multi-thread", "macros", "sync", "fs", "process", "time", "io-util"] }
tracing = "0.1"
tracing-subscriber = { version = "0.3", features = ["env-filter"] }
which = "8"
