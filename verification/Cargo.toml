[package]
name = "tachyon"
version = "0.1.0"
edition = "2021"
publish = false

[dependencies]
socket2 = "*"
rand = "*"
rayon = "*"
crossbeam = "*"
synchronoise = "*"

[dev-dependencies]
varuint = "*"
