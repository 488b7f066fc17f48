[package]
name = "uv_wasm"
version = "0.1.0"
edition = "2021"
publish = false

[dependencies]
web-time = "1"
rustc-hash = "2"
url = "2"
percent-encoding = "2"
glob = "0.3"
anstream = "0.6"
futures = "0.3"
console = "0.15"
indicatif = "0.17"
owo-colors = "4"
thiserror = "2"
