[package]
name = "util"
version = "0.1.0"
edition = "2021"
publish = false

[dependencies]
bytes = "1"
quick-xml = "0.31"
serde_json = "1"
anyhow = "1"
async-io = "1"
futures-core = "0.3"
futures-lite = "1"
pin-project-lite = "0.2"
smol = "1"

[dev-dependencies]
serde = "1"
