[package]
name = "v8-matrix"
version = "0.1.0"
edition = "2021"
publish = false

[dependencies]
anyhow = "1"
async-stream = "0.3"
async-trait = "0.1"
axum = { version = "0.8", default-features = false, features = ["http1", "json", "query", "tokio"] }
base64 = "=0.22.1"
bytes = "1"
futures = { version = "0.3", default-features = false, features = ["std"] }
h3 = "0.0.8"
h3-quinn = { version = "0.0.10", features = ["datagram"] }
h3-webtransport = "0.1.2"
http = "=1.5.0"
jsonwebtoken = { version = "=9.3.1", default-features = false }
quinn = { version = "0.11", default-features = false, features = ["runtime-tokio", "rustls-ring"] }
rcgen = { version = "=0.13.2", default-features = false, features = ["crypto", "ring"] }
reqwest = { version = "0.12", default-features = false, features = ["charset", "http2", "rustls-tls"] }
rustls = { version = "=0.23.46", default-features = false, features = ["ring", "std"] }
rustls-acme = { version = "0.12", default-features = false, features = ["ring"] }
serde = { version = "1", features = ["derive"] }
serde_json = "=1.0.154"
sha2 = "=0.10.9"
tokio = { version = "1", features = ["macros", "rt-multi-thread", "net", "time"] }
tower-http = { version = "0.6", default-features = false, features = ["fs"] }
v8 = "130.0.2"
wasmtime = { version = "=29.0.1", default-features = false, features = ["component-model", "cranelift", "runtime", "std"] }
wasmtime-wasi = { version = "=29.0.1", default-features = false }
