[package]
name = "validation_archiver"
version = "0.1.0"
edition = "2021"
publish = false

[dependencies]
clap = { version = "4", features = ["derive"] }
ctrlc = "3"
fs2 = "0.4"
ignore = "0.4"
nix = { version = "0.29", features = ["fs", "process", "signal"] }
procfs = "0.17"
sha2 = "0.10"
