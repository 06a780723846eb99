[package]
name = "q3x_backend"
version = "0.1.0"
edition = "2021"
publish = false

[dependencies]
candid = "=0.10.39"
hex = "=0.4.3"
ic-cdk = "=0.19.0"
ic-ledger-types = "=0.16.0"
k256 = "=0.13.4"
serde = { version = "=1.0.229", features = ["derive"] }
sha2 = "=0.10.9"
