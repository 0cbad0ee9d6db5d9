[package]
name = "rosu_mem"
version = "0.1.0"
edition = "2021"
publish = false

[dependencies]
cfg-if = "1"
nix = { version = "0.27", features = ["process", "uio"] }
thiserror = "1"

[dev-dependencies]
rand = "0.8"
