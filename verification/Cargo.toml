[package]
name = "wordle"
version = "0.1.0"
edition = "2021"
publish = false

[dependencies]
bracket-random = "=0.8.7"
colored = "=3.1.1"
fluent = "=0.17.0"
fluent-langneg = "=0.13.1"
unic-langid = "=0.9.6"
