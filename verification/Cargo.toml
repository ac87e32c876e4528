[package]
name = "ucx_rpc"
version = "0.1.0"
edition = "2021"
publish = false

[dependencies]
anyhow = "*"
libc = "*"
socket2 = "*"
tracing = "*"
tracing-subscriber = { version = "*", features = ["env-filter"] }
ucx1-sys = "*"
