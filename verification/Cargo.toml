[package]
name = "prost-reflect"
version = "0.1.0"
edition = "2021"
publish = false

[dependencies]
prost = "0.13"
prost-types = "0.13"
prost-build = "0.13"
once_cell = "1"
