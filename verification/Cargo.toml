[package]
name = "geckolib"
version = "0.1.0"
edition = "2021"
publish = false

[dependencies]
aes = "=0.8.4"
cbc = "=0.1.2"
sha1_smol = "=1.0.1"
sha1 = { version = "=0.10.7", features = ["oid"] }
rsa = "=0.9.10"
rand = "=0.9.5"
rand_chacha = "=0.9.0"
sha3 = "=0.10.9"
setsum = "=0.9.0"
bsdiff = "=0.2.1"
deko = "=0.6.0"
serde = { version = "1", features = ["derive"] }
toml = "0.8"
semver = { version = "1", features = ["serde"] }
zip = { version = "2", default-features = false, features = ["deflate"] }
