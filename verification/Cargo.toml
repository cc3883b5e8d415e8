[package]
name = "broadcast_node"
version = "0.1.0"
edition = "2021"
publish = false

[dependencies]
async-trait = "=0.1.92"
maelstrom-node = "=0.1.6"
serde = { version = "=1.0.229", features = ["derive"] }
uuid7 = "=1.8.0"
