[package]
name = "libflipnote"
version = "0.1.0"
edition = "2021"
publish = false

[dependencies]
anyhow = "=1.0.104"
audio-codec-algorithms = "=0.8.1"
dithord = "=0.4.1"
fon = "=0.6.0"
hound = "=3.5.1"
image = { version = "=0.24.9", default-features = false, features = ["png", "jpeg"] }
libc = "=0.2.191"
rand_core = { version = "=0.6.4", features = ["getrandom"] }
rsa = "=0.9.10"
rubato = "=0.14.1"
sha1-checked = "=0.10.0"
