[package]
name = "solark_monitor"
version = "0.1.0"
edition = "2021"
publish = false

[dependencies]
chrono = "0.4"
config = { version = "0.14", default-features = false, features = ["toml"] }
futures = "0.3"
influxdb2 = { version = "0.5", default-features = false, features = ["rustls"] }
matrix-sdk = { version = "0.7", default-features = false, features = ["e2e-encryption", "automatic-room-key-forwarding", "rustls-tls"] }
serde = { version = "1", features = ["derive"] }
tokio = { version = "1", features = ["macros", "rt", "time"] }
tokio-modbus = { version = "0.13", default-features = false, features = ["rtu"] }
tokio-serial = "5.4"
