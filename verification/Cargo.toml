[package]
name = "prec"
version = "0.1.0"
edition = "2021"
publish = false

[dependencies]
env_logger = "=0.11.11"
log = "=0.4.34"
rcon = { version = "=0.6.0", features = ["rt-tokio"] }
steamlocate = "=2.1.1"
tokio = { version = "=1.53.2", features = ["rt-multi-thread", "macros", "net", "time"] }
