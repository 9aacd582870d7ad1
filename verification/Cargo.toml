[package]
name = "packet_gateway"
version = "0.1.0"
edition = "2021"
publish = false

[dependencies]
byteorder = "=1.5.0"
chrono = "=0.4.45"
diesel = { version = "=2.3.14", features = ["sqlite", "chrono"] }
dotenvy = "=0.15.7"
