[package]
name = "crw"
version = "0.1.0"
edition = "2021"
publish = false

[dependencies]
url = "2"
serde = { version = "1", features = ["derive"] }
serde_json = "1"
uuid = { version = "1", features = ["v4"] }
futures = "0.3"
reqwest = { version = "0.12", default-features = false, features = ["stream", "gzip"] }
axum = { version = "0.8", default-features = false, features = ["json"] }
