[package]
name = "can_parser"
version = "0.1.0"
edition = "2021"
publish = false

[dependencies]
regex = "*"
serde = { version = "*", features = ["derive"] }
serde_json = "*"
can-dbc = "*"
calamine = "*"
csv = "*"
flatten-serde-json = "*"
hex = "*"
rusqlite = { version = "*", features = ["bundled"] }
clap = "*"
rayon = "*"
