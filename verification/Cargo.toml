[package]
name = "airi_protocol"
version = "0.1.0"
edition = "2021"
publish = false

[dependencies]
byteorder = "1"
hex = "0.4"
sha1 = "0.10"
aes = "0.8"
cfb8 = "0.8"
serde = { version = "1", features = ["derive"] }
serde_json = "1"
thiserror = "2"
tokio = { version = "1", features = ["full"] }
async-compression = { version = "0.4", features = ["tokio", "zlib"] }
log = "0.4"
rsa = "0.9"
reqwest = { version = "0.12", default-features = false, features = ["json", "blocking", "rustls-tls"] }
jsonwebtoken = "9"
chrono = "0.4"
colored = "*"
env_logger = "*"
directories = "*"
indicatif = "*"
zip = { version = "*", default-features = false, features = ["deflate"] }
take_mut = "0.2"
heck = "0.5"
indexmap = "2"
itertools = "*"
quote = "1"
proc-macro2 = "1"
syn = { version = "2", features = ["full"] }
