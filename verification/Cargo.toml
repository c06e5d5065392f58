[package]
name = "bridge_core"
version = "0.1.0"
edition = "2021"
publish = false

[dependencies]
ring = "=0.17.14"
sha2 = "=0.10.9"
sp-core = "=43.0.0"
sp-trie = "=47.0.0"
trie-db = "=0.32.0"
parity-scale-codec = "=3.7.5"
plonky2 = "=0.2.2"
plonky2_field = "=0.2.2"
itertools = "=0.11.0"
rayon = "=1.12.0"
serde_json = "=1.0.154"
log = "=0.4.34"
tokio = { version = "=1.54.1", features = ["rt", "rt-multi-thread", "macros", "sync", "time"] }
futures = "=0.3.34"
anyhow = "=1.0.104"
clap = { version = "=4.6.7", features = ["derive"] }
pretty_env_logger = "=0.5.0"
primitive-types = "=0.13.1"
ark-serialize = "=0.4.2"
ark-bls12-381 = "=0.4.0"
ark-ec = "=0.4.2"
ark-ff = "=0.4.2"
