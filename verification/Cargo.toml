[package]
name = "rootspace"
version = "0.1.0"
edition = "2021"
publish = false

[dependencies]
nalgebra = "0.15"
alga = "0.6"
num-traits = "0.2"
serde = { version = "1", features = ["derive"] }
clap = "2"
uuid = { version = "0.6", features = ["v4"] }
image = "0.19"
rusttype = { version = "0.5", features = ["gpu_cache"] }
unicode-normalization = "0.1"
log = "0.4"
fern = "0.5"
