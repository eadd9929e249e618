[package]
name = "blockp2p"
version = "0.1.0"
edition = "2021"
publish = false

[dependencies]
blake3 = "*"
blake2b_simd = "*"
blsttc = "*"
ed25519-dalek = "=1.0.1"
x25519-dalek = "=1.2.0"
rand = "0.8"
qp2p = "*"
crossbeam-channel = "*"
log = "*"
structopt = "*"
serde = { version = "1", features = ["derive"] }
serde_json = "1"
bincode = "1"
bytes = "*"
thiserror = "*"
