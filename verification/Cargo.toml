[package]
name = "nft_staking"
version = "0.1.0"
edition = "2021"
publish = false

[dependencies]
cosmwasm-schema = "*"
cosmwasm-std = "*"
cw2 = "*"
cw721 = "*"
cw-storage-plus = "*"
schemars = "*"
serde = { version = "*", features = ["derive"] }
thiserror = "*"
