[package]
name = "elrond_marshal"
version = "0.1.0"
edition = "2021"
publish = false

[dependencies]
elrond-codec = "0.8"
hex = "0.4"
num-bigint = "0.4"
