[package]
name = "clispeak"
version = "0.1.0"
edition = "2021"
publish = false

[dependencies]
anyhow = "1"
blake3 = "1"
chrono = { version = "0.4", default-features = false, features = ["alloc", "std"] }
ciborium = "0.2"
data-encoding = "2"
directories = "*"
gethostname = "*"
qrcode = { version = "*", default-features = false, features = ["svg"] }
rand = "*"
serde = { version = "1", features = ["derive"] }
serde_json = "1"
thiserror = "*"
toml = "*"
