[package]
name = "migrator"
version = "0.1.0"
edition = "2021"
publish = false

[dependencies]
iota-crypto = { version = "=0.23.2", features = ["wots_deprecated_do_not_use", "kerl_deprecated_do_not_use"] }
bee-ternary = "=1.0.0"
bee-message = "=0.1.7"
clap = "=2.34.0"
log = "=0.4.34"
env_logger = "=0.11.11"
rayon = "=1.12.0"
tokio = { version = "=1.53.2", features = ["rt-multi-thread", "time"] }
