[package]
name = "syncdir"
version = "0.1.0"
edition = "2021"
publish = false

[dependencies]
structopt = "=0.3.26"
walkdir = "=2.5.0"
