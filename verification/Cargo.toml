[package]
name = "http_core"
version = "0.1.0"
edition = "2021"
publish = false

[dependencies]
bytes = "1"
http = "1"
httparse = "1"
httpdate = "1"
http-body-util = "0.1"
hyper = { version = "1", features = ["http1", "server"] }
hyper-util = { version = "0.1", features = ["tokio"] }
monoio = "0.2"
tokio = { version = "1", features = ["full"] }
