[package]
name = "fc"
version = "0.1.0"
edition = "2021"
publish = false

[dependencies]
bimap = "=0.6.3"
dns-lookup = "=4.0.2"
