[package]
name = "safecast"
version = "0.1.0"
edition = "2021"
publish = false

[dependencies]
hmac = "0.12"
sha2 = "0.10"
rand = "0.9"
rand_chacha = "0.9"
openmls = "0.7"
openmls_traits = "0.4"
openmls_rust_crypto = "0.4"
openmls_basic_credential = "0.4"
openssl = "0.10"
srtp = "*"
base64 = "0.22"
hex = "0.4"
reqwest = { version = "0.12", default-features = false, features = ["json"] }
serde = { version = "1", features = ["derive"] }
serde_json = "1"
tokio = { version = "1", features = ["macros", "net", "rt-multi-thread", "time"] }
socket2 = { version = "0.6", features = ["all"] }
clap = { version = "4", features = ["derive"] }
actix-web = { version = "4", default-features = false, features = ["macros"] }
