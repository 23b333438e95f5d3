[package]
name = "session_server"
version = "0.1.0"
edition = "2021"
publish = false

[dependencies]
tokio = { version = "1", features = ["rt-multi-thread", "macros", "sync", "time"] }
warp = "0.3"
futures = "0.3"
uuid = { version = "1", features = ["v4"] }
