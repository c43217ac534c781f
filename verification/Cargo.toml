[package]
name = "xcomponent"
version = "0.1.0"
edition = "2021"
publish = false

[dependencies]
rstml = "*"
syn = "*"
proc-macro2 = "*"
quote = "*"
