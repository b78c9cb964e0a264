[package]
name = "lfr"
version = "0.1.0"
edition = "2021"
publish = false

[dependencies]
rowan = "0.15"
salsa = "0.17.0-pre.2"
notify = "4"
better-panic = "0.3"
indoc = "1"
