[package]
name = "mdns_repeater"
version = "0.1.0"
edition = "2021"
publish = false

[dependencies]
serde = { version = "*", features = ["derive"] }
toml = "*"
socket2 = "*"
nix = { version = "*", features = ["socket", "uio", "net"] }
libc = "*"
get_if_addrs = "*"
log = "*"
env_logger = "*"
