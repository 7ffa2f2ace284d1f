[package]
name = "haxmail"
version = "0.1.0"
edition = "2021"
publish = false

[dependencies]
anyhow = "*"
chrono = "*"
dotenv = "*"
libsql-client = "*"
tokio = { version = "*", features = ["full"] }
tracing = "*"
