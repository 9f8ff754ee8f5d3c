[package]
name = "star_node"
version = "0.1.0"
edition = "2021"
publish = false

[dependencies]
serde_json = "*"
serde = { version = "*", features = ["derive"] }
anyhow = "*"
async-trait = "*"
maelstrom-node = "*"
tokio = { version = "*", features = ["full"] }
tokio-context = "*"
