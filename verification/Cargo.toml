[package]
name = "tlsproxy"
version = "0.1.0"
edition = "2021"
publish = false

[dependencies]
anyhow = "1"
argon2 = { version = "=0.5.3", features = ["std"] }
async-speed-limit = { version = "0.4", features = ["tokio"] }
axum = { version = "0.8", features = ["ws"] }
base64 = "=0.22.1"
clap = { version = "4", features = ["derive"] }
flate2 = "=1.1.10"
hex = "=0.4.3"
hickory-resolver = "=0.25.2"
if-addrs = "=0.15.0"
instant-acme = { version = "=0.8.5", default-features = false, features = ["ring", "hyper-rustls", "time", "x509-parser"] }
log = "0.4"
lru = "=0.19.0"
rand = "=0.9.5"
rcgen = { version = "=0.14.10", features = ["x509-parser"] }
regex = "=1.13.1"
rustls = { version = "=0.23.46", default-features = false, features = ["ring", "std", "tls12", "logging"] }
rustls-pemfile = "=2.2.0"
serde = { version = "1", features = ["derive"] }
serde_json = "1"
serde_yaml_ng = "0.10"
sha2 = "=0.10.9"
short-uuid = "=0.2.1"
subtle = "=2.6.1"
time = { version = "=0.3.55", features = ["formatting", "parsing", "macros"] }
tokio = { version = "1", features = ["full"] }
tokio-rustls = { version = "0.26", default-features = false, features = ["ring", "tls12", "logging"] }
tracing-subscriber = "0.3"
x509-parser = { version = "=0.17.0", features = ["verify"] }
zstd = "=0.13.4"
