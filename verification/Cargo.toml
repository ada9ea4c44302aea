[package]
name = "autosurgeon_cat"
version = "0.1.0"
edition = "2021"
publish = false

[dependencies]
automerge-cat = "=0.3.1"
syn = { version = "=2.0.119", features = ["full"] }
quote = "=1.0.47"
proc-macro2 = "=1.0.107"
