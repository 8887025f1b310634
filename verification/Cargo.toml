[package]
name = "cosaci"
version = "0.5.0"
edition = "2021"
publish = false

[dependencies]
chacha20poly1305 = "=0.10.1"
ciborium = "=0.2.2"
ed25519-dalek = "=2.2.0"
hmac = "=0.13.0"
merlin = "=3.0.0"
rcgen = "=0.14.10"
rs_merkle = "=1.5.0"
rustls = { version = "=0.23.46", default-features = false, features = ["ring", "std", "tls12"] }
rustls-pemfile = "=2.2.0"
schnorrkel = "=0.11.5"
serde = { version = "=1.0.229", features = ["derive"] }
serde-big-array = "=0.5.1"
serde_json = { version = "=1.0.154", features = ["preserve_order"] }
sha2 = "=0.11.1"
signal-hook = "=0.4.6"
tempfile = "=3.27.0"
time = "=0.3.55"
tiny_http = "=0.12.0"
tokio = { version = "=1.54.1", features = ["io-util", "net", "rt"] }
tokio-rustls = { version = "=0.26.6", default-features = false, features = ["ring", "tls12"] }
toml = { version = "=0.9.8", features = ["preserve_order"] }
tracing = "=0.1.44"
tracing-subscriber = { version = "=0.3.23", features = ["env-filter"] }
wasmtime = { version = "=43.0.2", default-features = false, features = ["cranelift", "runtime", "std"] }
wat = "=1.263.0"
