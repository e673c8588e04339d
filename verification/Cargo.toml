[package]
name = "manga_server"
version = "0.1.0"
edition = "2021"
publish = false

[dependencies]
anyhow = "1"
async-trait = "0.1"
async_zip = { version = "0.0.16", default-features = false, features = ["tokio", "tokio-fs", "deflate"] }
hyper = { version = "0.14", features = ["full"] }
lazy_static = "1"
md5 = "0.7"
serde = { version = "1", features = ["derive"] }
serde_json = "1"
tokio = { version = "1", features = ["full"] }
toml = "0.8"
walkdir = "2"
