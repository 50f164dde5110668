[package]
name = "bldr"
version = "0.1.0"
edition = "2021"
publish = false

[dependencies]
env_logger = "=0.4.3"
log = "=0.3.9"
protobuf = "=1.7.5"
rand = "=0.3.23"
redis = "=0.8.0"
time = "=0.1.45"
toml = "=0.4.10"
zmq = "0.10"
