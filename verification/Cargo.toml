[package]
name = "pingpong_sync"
version = "0.1.0"
edition = "2021"
publish = false

[dependencies]
rkyv = { version = "0.7", features = ["validation"] }
bytecheck = "0.6"
