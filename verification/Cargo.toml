[package]
name = "rustacme"
version = "0.1.0"
edition = "2021"
publish = false

[dependencies]
chrono = { version = "0.4", default-features = false, features = ["clock", "std"] }
encoding_rs = "0.8"
md-5 = "0.10"
x509-parser = "0.15"
rsa = "0.9"
rand = "0.8"
rcgen = { version = "0.11", features = ["pem"] }
serde_json = "1"
log = "0.4"
env_logger = "0.10"
tokio = { version = "1", features = ["macros", "rt-multi-thread", "time"] }
reqwest = { version = "0.11", default-features = false, features = ["rustls-tls"] }
instant-acme = "0.4"
hyper = { version = "0.14", features = ["client", "http1", "http2", "tcp"] }
hyper-rustls = { version = "0.24", features = ["http1", "http2", "webpki-roots"] }
