[package]
name = "bulge"
version = "0.1.0"
edition = "2021"
publish = false

[dependencies]
version-compare = "*"
ring = "*"
hex = "*"
kdl = "3"
serde = { version = "1", features = ["derive"] }
serde_json = "1"
rusqlite = { version = "*", features = ["bundled"] }
isahc = "*"
tar = "*"
xz2 = "*"
sudo = "*"
text_io = "*"
