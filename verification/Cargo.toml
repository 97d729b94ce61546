[package]
name = "serial_tool"
version = "0.1.0"
edition = "2021"
publish = false

[dependencies]
bytes = "=1.12.1"
tokio = { version = "=1.53.2", features = ["rt-multi-thread", "macros", "sync", "time", "io-util", "io-std"] }
tokio-serial = "=5.5.0"
tokio-util = { version = "*", features = ["codec"] }
serialport = { version = "=4.10.1", default-features = false }
futures = "=0.3.34"
rusb = { version = "=0.9.4", features = ["vendored"] }
chrono = "=0.4.45"
