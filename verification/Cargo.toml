[package]
name = "dxpdf-service"
version = "1.0.2"
edition = "2021"
publish = false

[dependencies]
axum = "=0.8.9"
clap = { version = "=4.6.7", features = ["derive"] }
dxpdf = "=0.7.0"
env_logger = "=0.11.11"
log = "=0.4.35"
tokio = { version = "=1.54.1", features = ["macros", "net", "rt-multi-thread", "signal", "sync", "time"] }
windows-service = "=0.8.1"
