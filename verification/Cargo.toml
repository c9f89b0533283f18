[package]
name = "xskip"
version = "0.1.0"
edition = "2021"
publish = false

[dependencies]
anyhow = "*"
libbpf-rs = "*"
libc = "*"
ratatui = "*"
rtrb = "*"
smoltcp = { version = "*", default-features = false, features = ["std", "medium-ip", "proto-ipv4", "socket-tcp"] }
