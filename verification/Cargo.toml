[package]
name = "bitassets_node"
version = "0.1.0"
edition = "2021"
publish = false

[dependencies]
anyhow = "=1.0.104"
bitcoin = "=0.32.102"
blake3 = { version = "=1.8.7", default-features = false, features = ["pure"] }
bytes = "=1.12.1"
const-hex = "=1.19.3"
futures = "=0.3.34"
heed = "0.22"
hickory-resolver = "=0.26.3"
http = "=1.5.0"
jsonrpsee = { version = "=0.26.1", features = ["server", "client", "macros"] }
merkle-cbt = "=0.3.2"
nonempty = "=0.12.0"
parking_lot = "0.12"
quinn = "=0.11.12"
rcgen = "=0.13.2"
rustls = { version = "=0.23.46", default-features = false, features = ["ring", "std", "tls12"] }
serde = { version = "=1.0.229", features = ["derive"] }
tiny-bip39 = "=2.0.0"
tokio = { version = "=1.54.1", features = ["full"] }
tokio-stream = "=0.1.19"
tokio-util = { version = "=0.7.20", features = ["join-map"] }
tower = "=0.5.3"
tower-http = { version = "=0.7.1", features = ["cors", "request-id", "trace"] }
tracing = "=0.1.44"
url = "=2.5.8"
utoipa = "=5.5.0"
uuid = { version = "=1.29.0", features = ["v4"] }
zeromq = { version = "=0.7.0", default-features = false, features = ["tokio-runtime", "tcp-transport"] }

[dev-dependencies]
borsh = "=1.8.1"
