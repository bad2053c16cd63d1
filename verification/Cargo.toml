[package]
name = "deferred_rc"
version = "0.1.0"
edition = "2021"
publish = false

[dependencies]
atomic = "0.6"
downcast-rs = "1"
enum-map = "2"
