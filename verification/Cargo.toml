[package]
name = "riptorrent"
version = "0.1.0"
edition = "2021"
publish = false

[dependencies]
anyhow = "1"
async-channel = "1"
bitvec = "=1.0.1"
linked_hash_set = "=0.1.6"
log = "0.4"
percent-encoding = "=2.3.2"
pretty_env_logger = "0.4"
reqwest = "0.11"
serde = { version = "1", features = ["derive"] }
serde_bencode = "=0.2.4"
serde_urlencoded = "=0.7.1"
sha1 = "=0.10.7"
tokio = { version = "1", features = ["full"] }
