[package]
name = "hls_downloader"
version = "0.1.0"
edition = "2021"
publish = false

[dependencies]
url = "*"
aes = "*"
cbc = { version = "*", features = ["alloc", "block-padding"] }
block-padding = "*"
sha2 = "*"
zstd = "*"
dirs = "*"
tokio = { version = "*", features = ["full"] }
reqwest = { version = "*", default-features = false }
futures = "*"
tempfile = "*"
anyhow = "*"

[dev-dependencies]
hex = "*"
