[package]
name = "skademlia"
version = "0.1.0"
edition = "2021"
publish = false

[dependencies]
bs58 = "=0.5.1"
disco = "=0.1.0"
ed25519-dalek = "=1.0.0-pre.3"
failure = "=0.1.8"
rand = "=0.7.3"
time = "=0.1.45"
uint = "=0.10.2"
zeroize = "1"
