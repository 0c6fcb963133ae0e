[package]
name = "iris"
version = "0.1.0"
edition = "2021"
publish = false

[dependencies]
zune-jpeg = "*"
jpeg-encoder = "*"
serde = { version = "1", features = ["derive"] }
serde_json = "1"
toml = "*"
tokio = { version = "1", features = ["full"] }
async-trait = "*"
chrono = { version = "*", features = ["serde"] }
thiserror = "*"
tracing = "*"
tracing-subscriber = { version = "*", features = ["env-filter", "fmt"] }
anyhow = "1"
libc = "*"

[dev-dependencies]
tempfile = "*"
