[package]
name = "vnfs"
version = "0.1.0"
edition = "2021"
publish = false

[dependencies]
futures-util = "0.3"
libc = "0.2"
smb2 = "*"
tokio = { version = "1", features = ["rt-multi-thread", "net", "time"] }
