[package]
name = "orderbook_stream"
version = "0.1.0"
edition = "2021"
publish = false

[dependencies]
bytes = "1"
color-eyre = "0.6"
dotenvy = "0.15"
ecow = { version = "0.2", features = ["serde"] }
fastwebsockets = { version = "0.10", features = ["upgrade"] }
hickory-resolver = "0.25"
http-body-util = "0.1"
hyper = { version = "1", features = ["client", "http1"] }
hyper-util = { version = "0.1", features = ["tokio"] }
kanal = "0.1"
rustls = { version = "0.23", default-features = false, features = ["ring", "std", "tls12", "logging"] }
rustls-native-certs = "0.8"
serde = { version = "1", features = ["derive"] }
simd-json = "*"
tokio = { version = "1", features = ["macros", "net", "rt-multi-thread"] }
tokio-rustls = { version = "0.26", default-features = false, features = ["ring", "tls12", "logging"] }
uuid = { version = "1", features = ["serde"] }
