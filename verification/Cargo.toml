[package]
name = "jingle"
version = "0.1.0"
edition = "2021"
publish = false

[dependencies]
base32 = "0.5"
hmac = "0.12"
sha1 = "0.10"
sha2 = "0.10"
getrandom = "0.3"
time = { version = "0.3", features = ["formatting", "parsing", "serde"] }
zeroize = { version = "1", features = ["derive"] }
serde = { version = "1", features = ["derive"] }
serde_json = "1"
clap = { version = "4", features = ["derive"] }
directories = "6"
arboard = { version = "3", default-features = false }
