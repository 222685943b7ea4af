[package]
name = "wrk"
version = "0.1.0"
edition = "2021"
publish = false

[dependencies]
clap = { version = "4", features = ["derive"] }
hdrhistogram = { version = "7", default-features = false }
httparse = "1"
mlua = { version = "0.10", features = ["lua54", "vendored"] }
tokio = { version = "1", features = ["rt", "net", "time", "io-util", "macros"] }
rustls = { version = "0.23", default-features = false, features = ["ring", "std", "tls12", "logging"] }
tokio-rustls = { version = "0.26", default-features = false, features = ["ring", "tls12", "logging"] }
webpki-roots = "0.26"
