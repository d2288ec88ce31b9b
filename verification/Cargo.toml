[package]
name = "vmm"
version = "0.1.0"
edition = "2021"
publish = false

[dependencies]
crc64 = "2.0.0"
clap = { version = "4", features = ["derive"] }
displaydoc = "0.2"
libc = "0.2"
log = "0.4"
semver = "1"
serde = { version = "1", features = ["derive"] }
serde_json = "1"
thiserror = "2"
userfaultfd = { version = "0.9", features = ["linux5_7"] }
vm-memory = { version = "0.17", features = ["backend-mmap"] }
vmm-sys-util = "0.15"
