[package]
name = "kagemusha"
version = "0.1.0"
edition = "2021"
publish = false

[dependencies]
chrono = "=0.4.45"
serde = { version = "=1.0.229", features = ["derive"] }
serde_json = "=1.0.154"
thiserror = "=1.0.69"
async-trait = "=0.1.92"
tokio = { version = "=1.54.1", features = ["rt-multi-thread", "macros", "sync", "io-util"] }
reqwest = { version = "=0.12.28", default-features = false, features = ["json", "rustls-tls"] }
clap = { version = "=4.6.7", features = ["derive"] }
tracing = "=0.1.44"
tracing-subscriber = { version = "=0.3.23", features = ["env-filter"] }
sea-orm = { version = "=1.1.20", default-features = false, features = ["sqlx-sqlite", "runtime-tokio-rustls", "macros"] }
kakuremino = { version = "=0.1.1", default-features = false }
