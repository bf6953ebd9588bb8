[package]
name = "validate_readme"
version = "1.0.0"
edition = "2021"
publish = false

[dependencies]
caseless = "0.2"
regex = "=1.13.1"
