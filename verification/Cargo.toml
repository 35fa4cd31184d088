[package]
name = "sandseal"
version = "0.1.0"
edition = "2021"
publish = false

[dependencies]
base64 = "0.22"
sha1 = "0.10"
sha2 = "0.10"
hkdf = "0.12"
chacha20poly1305 = "0.10"
argon2 = "0.5"
rand_core = { version = "0.6", features = ["getrandom"] }
x25519-dalek = { version = "2", features = ["static_secrets"] }
ed25519-dalek = { version = "2", features = ["rand_core"] }
zeroize = "1"
serde = { version = "1", features = ["derive"] }
serde_json = "1"
clap = { version = "4", features = ["derive", "env"] }
anyhow = "1"
dirs = "6"
tokio = { version = "1", features = ["rt-multi-thread", "macros", "io-util", "io-std", "net", "process", "signal", "sync", "time", "fs"] }
reqwest = { version = "0.12", default-features = false, features = ["json", "rustls-tls"] }
tracing = "0.1"
glob = "0.3"
jsonschema = { version = "0.60", default-features = false }
nix = { version = "0.30", features = ["fs", "term"] }
libc = "0.2"
bollard = "0.19"
ctrlc = { version = "3", features = ["termination"] }
tempfile = "3"
