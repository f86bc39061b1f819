[package]
name = "wnfs"
version = "0.1.0"
edition = "2021"
publish = false

[dependencies]
anyhow = "1"
async-trait = "0.1"
blake3 = { version = "1", features = ["pure"] }
chrono = "0.4"
js-sys = "0.3"
libipld = "=0.11.0"
libipld-core = "=0.11.3"
num-bigint-dig = "=0.8.6"
rand_core = "0.6"
semver = { version = "=1.0.28", features = ["serde"] }
serde = { version = "1", features = ["derive"] }
serde_bytes = "0.11"
serde_ipld_dagcbor = { version = "=0.7.0", features = ["less-strict-decoding"] }
sha3 = "=0.10.9"
skip_ratchet = { version = "=0.3.0", features = ["serde"] }
wasm-bindgen = "0.2"
wasm-bindgen-futures = "0.4"
