[package]
name = "runcvm_fused"
version = "0.1.0"
edition = "2021"
publish = false

[dependencies]
anyhow = "*"
env_logger = "*"
libc = "*"
log = "*"
vsock = "*"
fuse-backend-rs = "*"
