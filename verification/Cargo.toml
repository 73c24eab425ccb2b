[package]
name = "keyring_core"
version = "0.1.0"
edition = "2021"
publish = false

[dependencies]
aes = "0.8"
base64 = "0.22"
cbc = { version = "0.1", features = ["alloc"] }
cipher = { version = "0.4", features = ["alloc", "block-padding", "rand_core", "std"] }
digest = { version = "0.10", features = ["mac"] }
hkdf = "0.12"
hmac = "0.12"
md-5 = "0.10"
num = "0.4"
num-bigint-dig = { version = "0.8", features = ["zeroize"] }
once_cell = "1"
pbkdf2 = "0.12"
rand_core = { version = "0.6", features = ["getrandom"] }
serde = { version = "1", features = ["derive"] }
sha2 = "0.10"
subtle = "2"
tokio = { version = "1", features = ["macros", "rt-multi-thread", "sync"] }
tracing = "0.1"
zbus = { version = "5", default-features = false, features = ["tokio"] }
zeroize = "1"
