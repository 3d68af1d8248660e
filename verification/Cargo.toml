[package]
name = "evonet"
version = "0.1.0"
edition = "2021"
publish = false

[dependencies]
rand = "0.8"
rustc_apfloat = "*"
clap = "*"
etherparse = "*"
pcap = "*"
winapi = { version = "0.3", features = ["processenv", "winbase", "wincon"] }
