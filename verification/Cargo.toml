[package]
name = "dinghy-apple"
version = "0.1.0"
edition = "2021"
publish = false

[dependencies]
anyhow = "1"
cargo_metadata = "0.18"
colored = "2"
criterion = "0.5"
dispatch2 = "*"
fs-err = "2"
inventory = "0.3"
json = "0.12"
libc = "0.2"
log = "0.4"
objc2 = "0.6"
objc2-app-kit = "0.3"
objc2-core-foundation = "0.3"
objc2-foundation = "0.3"
objc2-ui-kit = "0.3"
quote = "1"
serde = { version = "1", features = ["derive"] }
serde_json = "1"
syn = { version = "2", features = ["full"] }
tempfile = "3"
