[package]
name = "usdcbsv_orderbook"
version = "0.1.0"
edition = "2021"
publish = false

[dependencies]
sha2 = "*"
hex = "*"
bs58 = "*"
candid = "*"
ic-cdk = "*"
ic-cdk-timers = "*"
icrc-ledger-types = "*"
num-traits = "*"
serde = "*"
serde_json = "*"
