[package]
name = "parse_pcap"
version = "0.1.0"
edition = "2021"
publish = false

[dependencies]
regex = "=1.13.1"
pnet_packet = "=0.35.0"
linux-api = "=0.0.5"
pcap = "=2.5.0"
rayon = "=1.12.0"
string-error = "*"
lazy_static = "=1.5.1"
log = "=0.4.35"
