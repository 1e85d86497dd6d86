[package]
name = "test-assets"
version = "0.2.0"
edition = "2021"

[dependencies]
curl = "0.4"
sha2 = "0.10"
