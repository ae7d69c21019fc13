[package]
name = "libsql_bridge"
version = "0.1.0"
edition = "2021"
publish = false

[dependencies]
bytes = "=1.12.1"
libsql = "=0.9.30"
tokio = { version = "=1.53.2", features = ["rt-multi-thread"] }
hyper-rustls = { version = "=0.25.0", features = ["webpki-roots"] }
jni = "=0.22.4"
