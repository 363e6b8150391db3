[package]
name = "passwords"
version = "0.1.0"
edition = "2021"
publish = false

[dependencies]
argon2 = "0.5"
base64ct = { version = "1", features = ["alloc"] }
rand_core = { version = "0.6", features = ["getrandom"] }
