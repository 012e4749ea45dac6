[package]
name = "espeak_embedded"
version = "0.1.0"
edition = "2021"
publish = false

[dependencies]
log = "=0.4.34"
num-traits = "=0.2.19"
xous = "=0.9.71"
xous-ipc = "=0.10.11"
xous-api-names = "=0.9.72"
xous-tts-backend = "=0.1.6"
