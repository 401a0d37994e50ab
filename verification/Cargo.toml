[package]
name = "airjump"
version = "0.1.0"
edition = "2021"
publish = false

[dependencies]
svgparser = "*"
fps_clock = "*"
lazy_static = "*"
rodio = "*"
