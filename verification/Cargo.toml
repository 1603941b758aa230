[package]
name = "boop_core"
version = "0.1.0"
edition = "2021"
publish = false

[dependencies]
sublime_fuzzy = "=0.6.0"
