[package]
name = "bidasker_writer"
version = "0.1.0"
edition = "2021"
publish = false

[dependencies]
futures-util = "0.3"
memmap2 = "0.9"
reqwest = { version = "0.12", default-features = false, features = ["rustls-tls"] }
rustc-hash = "2"
serde = { version = "1", features = ["derive"] }
simd-json = "0.14"
sysinfo = "0.33"
tokio = { version = "1", features = ["full"] }
tokio-tungstenite = { version = "0.26", features = ["rustls-tls-webpki-roots"] }
tracing = "0.1"
tracing-appender = "0.2"
tracing-subscriber = "0.3"
