[package]
name = "pchain_client"
version = "0.1.0"
edition = "2021"
publish = false

[dependencies]
async-trait = "0.1"
bytes = "1"
ed25519-dalek = "1"
pchain-types = "*"
reqwest = { version = "0.11", default-features = false }
serde_json = { version = "1", features = ["arbitrary_precision"] }
sha2 = "0.10"

[dev-dependencies]
borsh = "0.10"
regex = "1"
serde-big-array = "0.5"
