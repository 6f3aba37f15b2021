[package]
name = "lvmt_state"
version = "0.1.0"
edition = "2021"
publish = false

[dependencies]
ethereum-types = "0.9"
rlp = "0.4"
tiny-keccak = { version = "2.0", features = ["keccak"] }
jsonrpc-core = "15"
log = "0.4"
parking_lot = "0.11"
