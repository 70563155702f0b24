[package]
name = "chiral_common"
version = "0.1.0"
edition = "2021"
publish = false

[dependencies]
anyhow = "*"
chrono = "*"
clap = "*"
flate2 = "*"
nanoid = "*"
openbabel = "*"
rand = "*"
