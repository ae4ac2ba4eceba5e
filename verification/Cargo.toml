[package]
name = "hwp-text-extract"
version = "0.1.0"
edition = "2021"
publish = false

[dependencies]
aes = "=0.8.4"
ecb = "=0.1.2"
byteorder = "=1.5.0"
flate2 = "=1.1.10"
cfb = "=0.15.0"
quick-xml = "=0.37.5"
zip = { version = "=9.1.0", default-features = false, features = ["deflate"] }
rayon = "=1.12.0"
clap = { version = "=4.6.7", features = ["derive"] }
thiserror = "=1.0.69"
