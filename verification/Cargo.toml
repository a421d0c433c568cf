[package]
name = "turbofish"
version = "0.1.0"
edition = "2021"
publish = false

[dependencies]
percent-encoding = "*"
axum = "*"
tokio = { version = "*", features = ["rt-multi-thread", "macros", "net"] }
tower-http = { version = "*", features = ["fs"] }
askama = "*"
