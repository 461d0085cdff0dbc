[package]
name = "flat_router"
version = "0.1.0"
edition = "2021"
publish = false

[dependencies]
anyhow = "=1.0.104"
quote = "=1.0.47"
serde = { version = "=1.0.229", features = ["derive"] }
syn = { version = "=1.0.109", features = ["full"] }
syn-rsx = "=0.9.0"
