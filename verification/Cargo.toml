[package]
name = "drone_tuner_core"
version = "0.1.0"
edition = "2021"
publish = false

[dependencies]
flate2 = "1"
serde_json = "1"
serde = { version = "1", features = ["derive"] }
blackbox-log = "*"
chrono = { version = "0.4", features = ["serde"] }
uuid = { version = "1", features = ["v4", "serde"] }
nalgebra = "*"
num-complex = "*"
rustfft = "*"
nom = "7"
thiserror = "*"
tracing = "*"
