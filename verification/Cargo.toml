[package]
name = "wspr_tx"
version = "0.1.0"
edition = "2021"
publish = false

[dependencies]
bitvec = "1"
memmap = "0.7"
