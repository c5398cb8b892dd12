[package]
name = "grip"
version = "0.1.0"
edition = "2021"
publish = false

[dependencies]
sha2 = "0.10"
md-5 = "0.10"
x509-parser = "0.16"
chrono = "0.4"
clap = { version = "4", features = ["derive"] }
serde = { version = "1", features = ["derive"] }
serde_json = "1"
rustls = { version = "0.23", default-features = false, features = ["ring", "std", "tls12", "logging"] }
webpki-roots = "0.26"
thiserror = "2"
