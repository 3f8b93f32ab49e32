[package]
name = "manage"
version = "0.1.0"
edition = "2021"
publish = false

[dependencies]
ic-cdk = "*"
ic-cdk-macros = "*"
candid = "*"
futures = "*"
rlp = "*"
serde = "*"
