[package]
name = "notevault"
version = "0.1.0"
edition = "2021"
publish = false

[dependencies]
pulldown-cmark = "*"
ammonia = "*"
nanoid = "*"
serde = { version = "*", features = ["derive"] }
tantivy = "*"
