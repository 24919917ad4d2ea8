[package]
name = "dexter_ipfs_car"
version = "0.1.0"
edition = "2021"
publish = false

[dependencies]
anyhow = "=1.0.104"
cid = "=0.11.3"
multihash-codetable = { version = "=0.2.2", features = ["sha2"] }
serde_cbor = "=0.11.2"
