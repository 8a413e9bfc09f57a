[package]
name = "brs"
version = "0.2.0"
edition = "2021"
publish = false

[dependencies]
byteorder = "1"
chrono = { version = "0.4", default-features = false }
flate2 = "1"
libflate = "1"
thiserror = "1"
uuid = "1"
