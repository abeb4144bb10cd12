[package]
name = "keyscan"
version = "0.1.0"
edition = "2021"
publish = false

[dependencies]
bitcoin = "=0.32.102"
secp256k1 = "=0.29.1"
hex = "=0.4.3"
chrono = "=0.4.45"
num_cpus = "=1.17.0"
