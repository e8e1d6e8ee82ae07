[package]
name = "rtmp_vcam"
version = "0.1.0"
edition = "2021"
publish = false

[dependencies]
bytes = "1"
libc = "0.2"
rml_rtmp = "*"
tokio = { version = "1", features = ["net", "io-util", "rt-multi-thread", "macros", "signal"] }
tracing = "0.1"
tracing-subscriber = { version = "0.3", features = ["env-filter"] }
