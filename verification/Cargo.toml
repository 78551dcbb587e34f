[package]
name = "beijing_bus"
version = "0.1.0"
edition = "2021"
publish = false

[dependencies]
rust-crypto = "0.2"
rustc-serialize = "0.3"
xml-rs = "*"
hyper = "0.10"
postgres = "*"
postgis = "*"
r2d2 = "*"
r2d2_postgres = "*"
rand = "*"
time = "*"
