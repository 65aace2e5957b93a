[package]
name = "keccak_merkle"
version = "0.1.0"
edition = "2021"
publish = false

[dependencies]
rs_merkle = "1"
solana-sdk = "1.14"
anchor-lang = "0.26"
anchor-spl = "0.26"
mpl-token-metadata = "1"
spl-token = "3"
spl-associated-token-account = "1"
borsh = "0.9"
bincode = "1"
bytemuck = "1"
futures = "0.3"
