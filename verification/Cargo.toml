[package]
name = "bagextract"
version = "0.1.0"
edition = "2021"
publish = false

[dependencies]
quick-xml = "*"
rayon = "*"
zip = "*"
memmap = "*"
clap = "*"
postgres = "*"
serde = "*"
serde_derive = "*"
