[package]
name = "ciborium"
version = "0.2.2"
edition = "2021"
publish = false

[dependencies]
ciborium-io = { version = "0.2", features = ["alloc"] }
ciborium-ll = "0.2"
serde = { version = "1", features = ["derive"] }
