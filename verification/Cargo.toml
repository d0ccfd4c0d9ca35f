[package]
name = "celeste_autosplit"
version = "0.1.0"
edition = "2021"
publish = false

[dependencies]
roxmltree = "=0.21.2"
asr = "=0.0.1"
dlmalloc = { version = "=0.2.14", features = ["global"] }
livesplit-auto-splitting = "=0.1.0"
