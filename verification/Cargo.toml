[package]
name = "reward_contract"
version = "0.1.0"
edition = "2021"
publish = false

[dependencies]
cosmwasm-schema = "=2.3.5"
cosmwasm-std = "=2.3.5"
cw20 = "=2.0.0"
cw20-base = { version = "=2.0.0", features = ["library"] }
cw-storage-plus = "=2.0.0"
thiserror = "=2.0.21"
