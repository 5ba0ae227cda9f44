[package]
name = "dora-test-utils"
version = "0.1.0"
edition = "2021"
publish = false

[dependencies]
arrow = { version = "=59.3.2", default-features = false, features = ["json"] }
arrow-json = "=59.3.2"
dora-message = "=1.0.1"
eyre = "=0.6.14"
serde_json = { version = "=1.0.154", features = ["unbounded_depth"] }
