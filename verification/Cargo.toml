[package]
name = "create-dotslash"
version = "0.1.0"
edition = "2021"
publish = false

[dependencies]
async-compression = { version = "0.4", features = ["tokio", "gzip", "bzip2"] }
async-tar = { version = "*", default-features = false, features = ["runtime-tokio"] }
async_zip = { version = "*", features = ["deflate"] }
base64 = "0.22"
blake3 = { version = "1", features = ["pure"] }
bytes = "1"
clap = { version = "4", features = ["derive"] }
cliclack = "*"
futures-util = { version = "0.3", features = ["io"] }
hmac-sha256 = "1"
reqwest = { version = "0.12", default-features = false, features = ["rustls-tls"] }
ruzstd = "*"
serde = { version = "1", features = ["derive"] }
serde_json = "1"
snafu = "*"
tokio = { version = "1", features = ["full"] }
xz = "*"
