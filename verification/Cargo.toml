[package]
name = "audio_engine"
version = "0.1.0"
edition = "2021"
publish = false

[dependencies]
gcd = "2"
cpal = "0.13"
hound = "3.5"
lewton = "0.10"
log = "0.4"
