[package]
name = "ordo"
version = "0.1.0"
edition = "2021"
publish = false

[dependencies]
block2 = "0.6"
clap = { version = "4", features = ["derive"] }
crossbeam-channel = "0.5"
dispatch2 = "0.3"
libc = "0.2"
objc2 = "0.6"
objc2-app-kit = "0.3"
objc2-application-services = "0.3"
objc2-core-foundation = "0.3"
objc2-core-graphics = "0.3"
objc2-foundation = "0.3"
rusqlite = { version = "0.32", features = ["bundled"] }
serde = { version = "1", features = ["derive"] }
serde_json = "1"
