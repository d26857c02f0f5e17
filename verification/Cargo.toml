[package]
name = "touchdb"
version = "0.1.0"
edition = "2021"
publish = false

[dependencies]
crc32fast = "*"
lz4 = "*"
uuid = { version = "*", features = ["v7"] }
sqlparser = "*"
serde = { version = "*", features = ["derive"] }
toml = "*"
tokio = { version = "*", features = ["full"] }
tokio-util = { version = "*", features = ["codec"] }
futures = "*"
log = "*"
env_logger = "*"
memmap2 = "*"
rmp-serde = "*"
rayon = "*"
dashmap = "*"
