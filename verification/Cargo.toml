[package]
name = "stow"
version = "0.1.0"
edition = "2021"
publish = false

[dependencies]
async-trait = "*"
thiserror = "1"
tokio = { version = "1", features = ["fs", "io-util"] }
rusoto_core = { version = "0.48", default-features = false, features = ["rustls"] }
rusoto_credential = "0.48"
rusoto_s3 = { version = "0.48", default-features = false, features = ["rustls"] }
rusoto_signature = "0.48"
google-cloud = "*"
