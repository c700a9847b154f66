[package]
name = "bundler"
version = "0.1.0"
edition = "2021"
publish = false

[dependencies]
anyhow = "*"
axum = "*"
clap = { version = "*", features = ["derive", "env"] }
crc32fast = "*"
dotenvy = "*"
flate2 = "*"
glob = "*"
headers = "*"
humantime = "*"
sqlx = { version = "*", default-features = false, features = ["runtime-tokio", "mysql"] }
tokio = { version = "*", features = ["macros", "rt-multi-thread", "net", "time", "sync", "fs"] }
tower = "*"
url = "*"
