[package]
name = "certnft"
version = "0.1.0"
edition = "2021"
publish = false

[dependencies]
candid = "*"
ic-cdk = "*"
ic-cdk-macros = "*"
icrc-ledger-types = "*"
icrc-nft-types = "*"
serde = "*"
