[package]
name = "gatel_core"
version = "0.1.0"
edition = "2021"
publish = false

[dependencies]
arc-swap = "=1.9.3"
argon2 = "=0.5.3"
async-compression = { version = "=0.4.52", features = ["tokio", "gzip", "brotli", "zstd", "deflate"] }
bcrypt = "=0.17.1"
bytes = "=1.12.1"
certon = "=0.4.0"
dashmap = "=6.2.1"
hickory-resolver = "=0.25.2"
http = "=1.5.0"
http-body = "=1.1.0"
http-body-util = "=0.1.5"
hyper = { version = "=1.12.0", features = ["client", "http1", "http2", "server"] }
hyper-rustls = { version = "=0.27.10", default-features = false, features = ["http1", "http2", "ring", "webpki-tokio"] }
hyper-util = { version = "=0.1.21", features = ["client", "client-legacy", "http1", "http2", "server", "server-auto", "tokio"] }
kdl = "=6.7.1"
password-hash = "=0.5.0"
pbkdf2 = { version = "=0.12.2", features = ["simple"] }
rand = "=0.9.5"
regex = "=1.13.1"
reqwest = { version = "=0.12.28", default-features = false }
rustls = { version = "=0.23.46", default-features = false, features = ["ring", "std"] }
salvo = { version = "=1.1.0", default-features = false, features = ["compression", "cors", "force-https", "http1", "logging", "request-id", "serve-static", "server", "timeout", "trailing-slash"] }
scrypt = "=0.11.0"
serde = { version = "=1.0.229", features = ["derive"] }
serde_json = "=1.0.154"
thiserror = "=2.0.21"
tokio = { version = "=1.54.1", features = ["fs", "io-util", "macros", "net", "process", "rt-multi-thread", "sync", "time"] }
tracing = "=0.1.44"

[dev-dependencies]
tempfile = "=3.27.0"
