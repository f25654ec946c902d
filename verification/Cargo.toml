[package]
name = "lib_persist"
version = "0.1.0"
edition = "2021"
publish = false

[dependencies]
base62 = "*"
heck = "*"
scylla = "*"
tinytemplate = "*"
uuid = "*"
