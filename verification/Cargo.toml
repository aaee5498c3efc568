[package]
name = "warren"
version = "0.1.0"
edition = "2021"
publish = false

[dependencies]
bitvec = "1"
bimap = "0.6"
nom = "5"
rustyline = "9"
