[package]
name = "goldleaf"
version = "0.1.0"
edition = "2021"
publish = false

[dependencies]
proc-macro2 = { version = "=1.0.107", default-features = false }
mongodb = { version = "=3.9.1", default-features = false, features = ["compat-3-3-0", "bson-3", "rustls-tls"] }
async-trait = "=0.1.92"
serde = { version = "=1.0.229", features = ["derive"] }
