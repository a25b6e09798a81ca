[package]
name = "coleus"
version = "0.1.0"
edition = "2021"
publish = false

[dependencies]
anyhow = "*"
dircpy = "*"
mdbook = "*"
path-slash = "*"
pathdiff = "*"
pulldown-cmark = "*"
pulldown-cmark-to-cmark = "*"
serde = { version = "*", features = ["derive"] }
serde_json = "*"
toml = "*"
