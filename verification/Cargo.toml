[package]
name = "greeter"
version = "0.1.0"
edition = "2021"
publish = false

[dependencies]
async-compat = "0.2"
async-std = "1"
byteorder = "1"
bytes = "1"
clap = "2"
core_affinity = "0.5"
futures = "0.3"
futures-util = "0.3"
glommio = "0.9"
hpack = "0.3"
iou = "0.3"
libc = "0.2"
mio = { version = "0.7", features = ["os-poll", "tcp"] }
nix = "0.18"
num_cpus = "1"
pin-utils = "0.1"
polling = "2"
quick-protobuf = "0.8"
rustc-hash = "1"
smol = "1"
socket2 = { version = "0.3", features = ["reuseport"] }
solicit = "0.4"
thiserror = "1"
tokio = { version = "1", features = ["full"] }
uring-sys = "0.7"
waker-fn = "1"
