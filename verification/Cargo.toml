[package]
name = "checkr"
version = "0.1.0"
edition = "2021"
publish = false

[dependencies]
regex = "1"
anyhow = "1"
thiserror = "2"
serde = { version = "1", features = ["derive"] }
serde_json = "1"
clap = { version = "4", features = ["derive"] }
tokio = { version = "1", features = ["rt-multi-thread", "macros", "net"] }
axum = "0.8"
futures = "0.3"
tracing = "0.1"
tracing-subscriber = "0.3"
libc = "0.2"
once_cell = "1"
