[package]
name = "pajamax"
version = "0.1.0"
edition = "2021"
publish = false

[dependencies]
async-trait = "=0.1.92"
bytes = "=1.12.1"
compio = { version = "=0.19.2", features = ["io", "net", "runtime"] }
flate2 = "=1.1.10"
flume = "=0.12.0"
futures-util = "=0.3.34"
local-sync = "=0.1.1"
prost = "=0.14.4"
prost-build = "=0.14.4"
socket2 = { version = "=0.6.5", features = ["all"] }
zstd = "=0.13.4"
