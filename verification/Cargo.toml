[package]
name = "deep_filter"
version = "0.1.0"
edition = "2021"
publish = false

[dependencies]
anyhow = "=1.0.104"
clap = { version = "=4.6.7", features = ["derive"] }
console_error_panic_hook = "0.1"
cpal = "=0.18.2"
crossbeam-channel = "=0.5.17"
env_logger = "=0.11.11"
event-listener = "=5.4.2"
image = { version = "=0.25.10", default-features = false }
js-sys = "=0.3.107"
ladspa = "=0.3.4"
log = "=0.4.35"
ndarray = "=0.17.2"
rand = "=0.10.3"
rand_xoshiro = "=0.8.1"
ringbuf = "=0.4.8"
rubato = "=5.0.1"
thiserror = "=2.0.21"
uuid = { version = "=1.29.0", features = ["v4"] }
wasm-bindgen = "=0.2.130"
zbus = "=5.19.0"
iced = { version = "=0.14.0", default-features = false, features = ["image-without-codecs", "tiny-skia", "tokio", "x11"] }
