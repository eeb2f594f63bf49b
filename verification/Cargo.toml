[package]
name = "textstream"
version = "0.1.0"
edition = "2021"

[dependencies]
clap = "2.33"
