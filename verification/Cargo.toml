[package]
name = "mentee_watch"
version = "0.1.0"
edition = "2021"
publish = false

[dependencies]
url = "=2.5.8"
serenity = "=0.12.5"
octocrab = "=0.43.0"
tokio = { version = "=1.53.2", features = ["macros", "rt-multi-thread", "signal", "time"] }
chrono = "=0.4.45"
serde = { version = "=1.0.229", features = ["derive"] }
serde_json = "=1.0.151"
anyhow = "=1.0.104"
tracing = "=0.1.44"
tracing-subscriber = { version = "=0.3.23", features = ["env-filter"] }
sys-info = "=0.9.1"
