[package]
name = "sidechain_core"
version = "0.1.0"
edition = "2021"
publish = false

[dependencies]
blake3 = "1"
bs58 = { version = "=0.4.0", features = ["check"] }
ed25519-dalek = "=1.0.1"
bitcoin = "=0.30.3"
sha256 = "1"
bincode = "=1.3.3"
serde = { version = "1", features = ["derive"] }
tokio = { version = "1", features = ["rt-multi-thread", "macros", "time", "sync", "net"] }
quinn = "=0.10.2"
rustls = { version = "=0.21.12", features = ["dangerous_configuration"] }
rcgen = "=0.11.3"
bytes = "1"
heed = "=0.11.0"
jsonrpsee = { version = "=0.16.3", features = ["http-client", "macros"] }
base64 = "=0.21.7"

[dev-dependencies]
hex = "0.4"
