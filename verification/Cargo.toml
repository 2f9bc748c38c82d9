[package]
name = "image_puller"
version = "0.1.0"
edition = "2021"
publish = false

[dependencies]
anyhow = "*"
docker-api = "*"
futures = "*"
tokio = { version = "*", features = ["rt-multi-thread", "macros", "sync"] }
