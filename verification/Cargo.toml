[package]
name = "kartel"
version = "0.1.0"
edition = "2021"
publish = false

[dependencies]
accounting = { version = "=0.2.0", features = ["decimal"] }
anyhow = "=1.0.104"
async-trait = "=0.1.92"
axum = "=0.8.9"
chrono = { version = "=0.4.45", features = ["serde"] }
configrs = "=0.1.4"
dptree = "=0.5.1"
regex = "=1.13.1"
reqwest = { version = "=0.12.28", features = ["json"] }
rusqlite = { version = "=0.40.2", features = ["bundled"] }
rust_decimal = "=1.43.0"
rust_decimal_macros = "=1.40.0"
serde = { version = "=1.0.229", features = ["derive"] }
takecell = "=0.1.1"
teloxide = { version = "=0.17.0", features = ["macros", "webhooks-axum"] }
thiserror = "=2.0.21"
tokio = { version = "=1.54.1", features = ["full"] }
