[package]
name = "bard"
version = "0.1.0"
edition = "2021"
publish = false

[dependencies]
yaml-rust = "0.4"
dbus = "0.9"
dbus-crossroads = "0.5"
log = "0.4"
simple_logger = "*"
