[package]
name = "cosmic_edit"
version = "0.1.0"
edition = "2021"
publish = false

[dependencies]
cosmic-text = { version = "0.11", default-features = false, features = ["std", "swash"] }
image = { version = "0.24", default-features = false }
sys-locale = "0.3"
