[package]
name = "satellite"
version = "0.1.0"
edition = "2021"
publish = false

[dependencies]
candid = "=0.10.39"
ciborium = "=0.2.2"
ic-cdk = "=0.19.0"
ic-stable-structures = "=0.7.2"
junobuild-shared = "=0.8.2"
serde = { version = "=1.0.229", features = ["derive"] }
sha2 = "=0.10.9"
