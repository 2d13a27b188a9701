[package]
name = "conway"
version = "0.1.0"
edition = "2021"

[dependencies]
rand = "0.8"
dirs = "5"
