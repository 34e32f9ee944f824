[package]
name = "opening_stats"
version = "0.1.0"
edition = "2021"
publish = false

[dependencies]
serde = { version = "=1.0.229", features = ["derive"] }
sha1 = "=0.11.0"
shakmaty = { version = "=0.27.3", features = ["variant"] }
thiserror = "=2.0.21"
