[package]
name = "rindex"
version = "0.1.0"
edition = "2021"
publish = false

[dependencies]
anyhow = "*"
argh = "*"
http-body-util = "*"
httpdate = "*"
hyper = { version = "*", features = ["http1", "server"] }
hyper-util = { version = "*", features = ["tokio"] }
rayon = "*"
spdlog-rs = "*"
thiserror = "*"
tokio = { version = "*", features = ["macros", "net", "rt-multi-thread", "signal"] }

[dev-dependencies]
sonic-rs = "*"
