[package]
name = "blob_rasterizer"
version = "0.1.0"
edition = "2021"
publish = false

[dependencies]
tiny-skia = "0.11"
rayon = "1"
euclid = "*"
webrender_api = "*"
