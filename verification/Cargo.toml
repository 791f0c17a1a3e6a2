[package]
name = "aae"
version = "0.1.0"
edition = "2021"
publish = false

[dependencies]
rand = "0.8"
chrono = "0.4"
anyhow = "1"
tokio = { version = "1", features = ["rt-multi-thread", "macros", "sync", "time"] }
futures = "0.3"
serde = { version = "1", features = ["derive"] }
sqlx = { version = "0.6", features = ["runtime-tokio-rustls", "sqlite", "migrate"] }
once_cell = "1"
parking_lot = "0.12"
directories = "5"
dunce = "1"
spin_sleep = "1"
async-trait = "0.1"
typeshare = "1"
tokio-stream = "0.1"
rspc = "0.1"
