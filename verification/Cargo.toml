[package]
name = "facet_form_spike"
version = "0.1.0"
edition = "2021"
publish = false

[dependencies]
facet = { version = "=0.46.5", features = ["reflect"] }
