[package]
name = "spb_data_service"
version = "0.1.0"
edition = "2021"
publish = false

[dependencies]
clap = "2.34.0"
crossbeam-channel = "0.5"
rumqtt = "0.31.0"
serde = { version = "1", features = ["derive"] }
serde_json = "1"
serialport = { version = "3.3.0", default-features = false }
