[package]
name = "notorious6"
version = "0.1.0"
edition = "2021"
publish = false

[dependencies]
anyhow = "1"
bytes = "1"
exr = "1"
glutin = "0.28"
hotwatch = "0.4"
jpeg-encoder = "0.5"
lazy_static = "1"
log = "0.4"
parking_lot = "0.11"
radiant = "0.3"
relative-path = "1"
shader-prepper = { version = "0.3.0-pre.1", features = ["gl_compiler"] }
simple_logger = "2"
smol = "1"
structopt = "0.3"
turbosloth = "*"
