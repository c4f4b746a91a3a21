[package]
name = "live_synth"
version = "0.1.0"
edition = "2021"
publish = false

[dependencies]
anyhow = "1"
assert_no_alloc = "1.1"
cpal = "0.15"
fundsp = "0.16"
