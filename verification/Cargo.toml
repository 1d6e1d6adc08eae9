[package]
name = "lore_parser"
version = "0.1.0"
edition = "2021"
publish = false

[dependencies]
aho-corasick = "1"
regex = "1"
unicode-segmentation = "1"
serde = { version = "1", features = ["derive"] }
serde_yaml = "0.9"
