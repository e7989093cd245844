[package]
name = "bible_corpus"
version = "0.1.0"
edition = "2021"
publish = false

[dependencies]
encoding_rs = "*"
rand = "0.9"
anyhow = "*"
