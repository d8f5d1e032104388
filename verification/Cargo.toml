[package]
name = "mapeditr"
version = "0.1.0"
edition = "2021"
publish = false

[dependencies]
anyhow = "1"
byteorder = "1"
clap = "2"
flate2 = "1"
memmem = "0.1"
sqlite = "0.26"
thiserror = "1"
zstd = "0.9"
