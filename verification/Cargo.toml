[package]
name = "aisdb_s3"
version = "0.1.0"
edition = "2021"
publish = false

[dependencies]
base64 = "0.21"
md-5 = "0.10"
num_cpus = "1"
rayon = "1"
rusoto_core = { version = "0.48", default-features = false, features = ["rustls"] }
rusoto_credential = "0.48"
rusoto_s3 = { version = "0.48", default-features = false, features = ["rustls"] }
tempfile = "3"
tokio = { version = "1", features = ["macros", "rt-multi-thread", "io-util"] }
zip = { version = "0.6", default-features = false, features = ["deflate"] }
