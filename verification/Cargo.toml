[package]
name = "kloak"
version = "0.7.5"
edition = "2021"
publish = false

[dependencies]
input = { version = "0.9", default-features = false }
libc = "0.2"
nix = { version = "0.29", features = ["inotify", "poll", "time"] }
