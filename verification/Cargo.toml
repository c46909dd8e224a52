[package]
name = "codasai"
version = "0.1.0"
edition = "2021"
publish = false

[dependencies]
pulldown-cmark = "0.8"
ammonia = "3"
syntect = { version = "4.6", default-features = false, features = ["default-fancy"] }
slug = "0.1"
git2 = { version = "0.13", default-features = false }
toml = "0.5"
serde = { version = "1", features = ["derive"] }
anyhow = "1"

[dev-dependencies]
serde_json = "1"
