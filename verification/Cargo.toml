[package]
name = "deckml"
version = "0.1.0"
edition = "2021"
publish = false

[dependencies]
genpdf = { version = "*", features = ["images"] }
