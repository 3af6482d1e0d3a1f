[package]
name = "lumin"
version = "0.1.0"
edition = "2021"
publish = false

[dependencies]
liquid = "=0.25.1"
markdown = "=1.0.0"
toml = "=1.1.6"
regex = "=1.13.1"
mime_guess = "=2.0.5"
axum = "=0.8.9"
clap = { version = "=4.6.7", features = ["derive"] }
tokio = { version = "=1.53.2", features = ["full"] }
tokio-stream = { version = "=0.1.19", features = ["sync"] }
tower = "=0.5.3"
tower-http = { version = "=0.7.1", features = ["trace"] }
tracing = "=0.1.44"
tracing-subscriber = "=0.3.23"
futures-util = "=0.3.34"
notify-debouncer-full = "=0.7.0"
