[package]
name = "word_of_wisdom"
version = "0.1.0"
edition = "2021"
publish = false

[dependencies]
sha2 = "0.10"
rand = "0.8"

[dev-dependencies]
bincode = "1"
