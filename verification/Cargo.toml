[package]
name = "figma-framelink-cli"
version = "0.1.0"
edition = "2021"
publish = false

[dependencies]
anyhow = "=1.0.104"
clap = { version = "=4.6.7", features = ["derive", "env"] }
dotenvy = "=0.15.7"
image = { version = "=0.25.10", default-features = false, features = ["gif", "jpeg", "png", "webp"] }
indexmap = "=2.14.2"
reqwest = { version = "=0.12.28", default-features = false, features = ["json", "rustls-tls"] }
serde = { version = "=1.0.229", features = ["derive"] }
serde_json = { version = "=1.0.154", features = ["float_roundtrip", "preserve_order", "unbounded_depth"] }
serde_yaml = "=0.9.34"
sha1 = "=0.10.7"
tokio = { version = "=1.54.1", features = ["macros", "rt-multi-thread"] }
url = "=2.5.8"
