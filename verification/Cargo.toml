[package]
name = "manchester_code"
version = "0.1.0"
edition = "2021"

[dependencies]
defmt = "=0.3.101"
embedded-hal = { version = "=0.2.7", features = ["unproven"] }
