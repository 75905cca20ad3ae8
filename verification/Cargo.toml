[package]
name = "grit_protocol"
version = "0.1.0"
edition = "2021"
publish = false

[dependencies]
async-trait = "=0.1.92"
crc32fast = "=1.5.4"
flate2 = "=1.1.10"
sha1 = "0.11"
sha2 = "0.11"
thiserror = "=2.0.21"
time = "=0.3.55"
