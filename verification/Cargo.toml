[package]
name = "neko_message_plane"
version = "0.1.0"
edition = "2021"
publish = false

[dependencies]
regex = "1"
serde = { version = "1", features = ["derive"] }
serde_json = "1"
rmp-serde = "1"
rmpv = { version = "1", features = ["with-serde"] }
crossbeam = "0.8"
parking_lot = "0.12"
dashmap = "*"
clap = { version = "4", features = ["derive"] }
env_logger = "*"
log = "0.4"
num_cpus = "1"
zmq = "0.10"
