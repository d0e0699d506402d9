[package]
name = "kooforge"
version = "0.1.0"
edition = "2021"
publish = false

[dependencies]
anyhow = "1"
bs58 = "0.5"
clap = { version = "4", features = ["derive"] }
crossbeam-channel = "0.5"
ctrlc = "3"
dialoguer = "0.11"
ed25519-dalek = { version = "2", features = ["rand_core"] }
libp2p-identity = { version = "0.2", features = ["ed25519", "peerid"] }
memchr = "2"
num_cpus = "1"
rand = "0.8"
time = { version = "0.3", features = ["formatting"] }
