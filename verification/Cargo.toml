[package]
name = "boilermates"
version = "0.1.0"
edition = "2021"
publish = false

[dependencies]
anyhow = "1"
heck = "*"
indexmap = "*"
itertools = "*"
prettyplease = "0.1"
proc-macro2 = "1"
quote = "1"
syn = { version = "1", features = ["full"] }
