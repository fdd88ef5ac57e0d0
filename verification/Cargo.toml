[package]
name = "kas"
version = "0.1.0"
edition = "2021"
publish = false

[dependencies]
ab_glyph = "0.2"
cassowary = "0.3"
rusttype = "0.8"
stack_dst = "0.6"
wgpu = "0.5"
