[package]
name = "j2me_kit"
version = "0.1.0"
edition = "2021"
publish = false

[dependencies]
png = "0.17"
zip = { version = "2", default-features = false, features = ["deflate"] }
toml = "0.8"
serde = { version = "1", features = ["derive"] }
