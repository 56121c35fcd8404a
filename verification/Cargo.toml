[package]
name = "hash_psd8"
version = "0.1.0"
edition = "2021"
publish = false

[dependencies]
snarkvm-algorithms = "=4.11.0"
snarkvm-curves = "=4.11.0"
snarkvm-utilities = "=4.11.0"
