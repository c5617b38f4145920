[package]
name = "agentplug"
version = "0.1.0"
edition = "2021"
publish = false

[dependencies]
anyhow = "1"
directories = "6"
libc = "0.2"
rustls = "0.23"
rustls-pemfile = "2"
serde = { version = "1", features = ["derive"] }
serde_json = { version = "1", features = ["float_roundtrip"] }
sha2 = "0.10"
ureq = "2"
wait-timeout = "0.2"
wasmtime = "36"
wasmtime-wasi = "36"
webpki-roots = "0.26"
