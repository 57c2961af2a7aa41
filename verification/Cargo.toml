[package]
name = "kmao_decrypt"
version = "0.1.0"
edition = "2021"
publish = false

[dependencies]
base64 = "*"
openssl = "*"
rayon = "*"
serde_json = "*"
colored = "*"
sqlx = { version = "*", default-features = false, features = ["sqlite", "runtime-tokio", "macros"] }
tokio = { version = "*", features = ["macros", "rt-multi-thread"] }
