[package]
name = "wasm_rpc"
version = "0.1.0"
edition = "2021"
publish = false

[dependencies]
http2parse = "*"
hpack = "0.3"
anyhow = "1"
async-trait = "*"
http = "0.2"
http-body = "0.4"
ouroboros = "*"
prost = "0.11"
serde = { version = "1", features = ["derive"] }
tokio = { version = "1", features = ["rt-multi-thread", "macros", "net", "sync", "io-util"] }
tonic = "0.8"
tower = "0.4"
wasm-rs-async-executor = "*"
