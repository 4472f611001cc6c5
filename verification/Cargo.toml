[package]
name = "boxroute"
version = "0.1.0"
edition = "2021"
publish = false

[dependencies]
itertools = "*"
priority-queue = "*"
rust_socketio = "*"
