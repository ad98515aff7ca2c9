[package]
name = "tesla_fan_control"
version = "0.1.0"
edition = "2021"
publish = false

[dependencies]
rust-ini = { version = "=0.21.3", features = ["inline-comment"] }
nvml-wrapper = "=0.13.0"
nix = { version = "=0.29.0", features = ["ioctl", "fs"] }
thiserror = "=1.0.69"
tracing = { version = "=0.1.44", features = ["release_max_level_info"] }
tracing-subscriber = { version = "=0.3.23", features = ["env-filter"] }
tracing-journald = "=0.3.2"
