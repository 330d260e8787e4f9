[package]
name = "necessary_work"
version = "0.1.0"
edition = "2021"
publish = false

[dependencies]
serde = { version = "=1.0.229", features = ["derive"] }
ron = "=0.8.1"
anyhow = "=1.0.104"
clap = { version = "=4.5.61", features = ["derive"] }
postcard = { version = "1", features = ["alloc"] }
