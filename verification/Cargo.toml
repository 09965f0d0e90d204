[package]
name = "geozero_shp"
version = "0.1.0"
edition = "2021"
publish = false

[dependencies]
dbase = "=0.8.0"
