[package]
name = "fileops"
version = "0.1.0"
edition = "2021"
publish = false

[dependencies]
pathdiff = "=0.2.3"
walkdir = "=2.5.0"
structopt = "=0.3.26"
