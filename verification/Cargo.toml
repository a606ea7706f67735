[package]
name = "tm-backup"
version = "0.1.0"
edition = "2021"
publish = false

[dependencies]
clap = "2"
log = "0.4"
simple_logger = "1"
