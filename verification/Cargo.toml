[package]
name = "network_time_simulator"
version = "0.1.0"
edition = "2021"
publish = false

[dependencies]
rand = { version = "0.8", features = ["small_rng"] }
gml_parser = "*"
toml = "0.8"
posixmq = "1"
fork = "0.2"
nix = { version = "0.29", features = ["process"] }
netns-rs = "*"
rtnetlink = "0.14"
netlink-packet-route = "0.19"
futures = "0.3"
tokio = { version = "1", features = ["rt-multi-thread", "macros"] }
