[package]
name = "riffu"
version = "0.1.0"
edition = "2021"

[dependencies]
memmap = "0.7.0"
