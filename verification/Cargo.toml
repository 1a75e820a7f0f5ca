[package]
name = "nixos-limine"
version = "0.1.0"
edition = "2021"
publish = false

[dependencies]
blake2 = "=0.10.6"
efivar = "=2.0.0"
gpt = "=4.1.0"
jiff = "=0.2.39"
rustix = { version = "=1.1.6", features = ["fs", "process"] }
serde = { version = "=1.0.229", features = ["derive"] }
serde_json = "=1.0.154"
uuid = "=1.29.0"
