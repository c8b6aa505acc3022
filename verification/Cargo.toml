[package]
name = "smplinfo"
version = "0.1.0"
edition = "2021"
publish = false

[dependencies]
riff = "1"
anyhow = "1"
log = "0.4"
stderrlog = "0.5"
structopt = "0.3"
walkdir = "2"
