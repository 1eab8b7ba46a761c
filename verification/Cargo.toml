[package]
name = "zk4log"
version = "0.1.0"
edition = "2021"
publish = false

[dependencies]
bellman = "0.14"
bls12_381 = "0.8"
ff = "0.13"
pairing = "0.23"
rand = "0.8"
sha2 = "0.10"
hex = "0.4"
serde_json = { version = "1", features = ["preserve_order"] }
sha256 = { version = "1", default-features = false }
regex = "1"
dialoguer = "0.11"
nu-path = "0.87"
nu-plugin = "0.87"
nu-protocol = "0.87"
