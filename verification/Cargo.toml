[package]
name = "complexipy"
version = "0.1.0"
edition = "2021"
publish = false

[dependencies]
rustpython-parser = "*"
rustpython-ast = "*"
csv = "*"
serde = { version = "*", features = ["derive"] }
serde_json = "*"
ignore = "*"
rayon = "*"
indicatif = "*"
regex = "*"
tempfile = "*"
