[package]
name = "copc_rs"
version = "0.5.0"
edition = "2021"
publish = false

[dependencies]
byteorder = "=1.5.0"
fastrand = "=2.5.0"
las = { version = "=0.9.11", features = ["laz"] }
laz = "=0.12.2"
las-crs = "=1.1.0"
crs-definitions = "=0.6.0"
thiserror = "=2.0.21"
log = "=0.4.34"
