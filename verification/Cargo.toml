[package]
name = "ferry_runtime"
version = "0.1.0"
edition = "2021"
publish = false

[dependencies]
getrandom = "0.3"
zeroize = "1"
if-addrs = "*"
rustix = { version = "1", features = ["fs"] }
