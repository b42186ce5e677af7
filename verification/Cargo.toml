[package]
name = "lintel"
version = "0.1.0"
edition = "2021"
publish = false

[dependencies]
serde = "1"
toml = { version = "=1.1.8", features = ["preserve_order"] }
block2 = "0.6"
libc = "0.2"
objc2 = "0.6"
objc2-app-kit = "0.3"
objc2-application-services = "0.3"
objc2-core-foundation = "0.3"
objc2-foundation = "0.3"
objc2-quartz-core = "0.3"
objc2-service-management = "0.3"
tracing = "0.1"
