[package]
name = "mdtable"
version = "1.1.1"
edition = "2021"
publish = false

[dependencies]
pad = "=0.1.6"
unicode-width = "=0.1.14"
clap = "=2.34.0"
easy-error = "=1.0.0"
