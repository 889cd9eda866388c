[package]
name = "imagestore"
version = "0.1.0"
edition = "2021"
publish = false

[dependencies]
uuid = { version = "=1.27.0", features = ["v4"] }
sanitize-filename = "=0.6.0"
mozjpeg = "=0.10.13"
axum = { version = "=0.8.9", features = ["multipart"] }
axum-server = "*"
tokio = { version = "*", features = ["full"] }
tokio-util = { version = "*", features = ["io"] }
tower-http = { version = "*", features = ["fs"] }
tera = { version = "=2.4.0", features = ["glob_fs"] }
tracing = "*"
tracing-subscriber = "*"
dotenv = "*"
sqlx = { version = "*", features = ["runtime-tokio", "postgres", "uuid"] }
