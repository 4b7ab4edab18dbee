[package]
name = "conreg"
version = "0.1.0"
edition = "2021"
publish = false

[dependencies]
md5 = "*"
fastrand = "*"
rand = "*"
bcrypt = "*"
uuid = { version = "*", features = ["v4"] }
base58 = "*"
chacha20poly1305 = "*"
serde_yaml = "*"
serde = { version = "*", features = ["derive"] }
serde_json = "*"
clap = { version = "*", features = ["derive"] }
