[package]
name = "gvltkeys"
version = "0.1.0"
edition = "2021"
publish = false

[dependencies]
sha2 = "=0.10.9"
ripemd = "=0.1.3"
hmac = "=0.12.1"
pbkdf2 = { version = "=0.12.2", features = ["hmac"] }
k256 = "=0.13.4"
bs58 = "=0.5.1"
bech32 = "=0.9.1"
unicode-normalization = "=0.1.25"
rand_core = { version = "=0.6.4", features = ["getrandom"] }
zeroize = "1"

[dev-dependencies]
bip32 = { version = "=0.5.3", features = ["bip39"] }
