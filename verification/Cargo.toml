[package]
name = "stellaris_save_editor"
version = "0.1.0"
edition = "2021"
publish = false

[dependencies]
aho-corasick = "1"
regex = "1"
anyhow = "1"
inquire = "0.7"
zip = { version = "0.6", default-features = false, features = ["deflate"] }
