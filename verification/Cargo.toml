[package]
name = "tola"
version = "0.1.0"
edition = "2021"
publish = false

[dependencies]
blake3 = "1"
deunicode = "1"
minify-html = "*"
regex = "1"
urlencoding = "2"
quick-xml = "*"
rustc-hash = "2"
serde = { version = "1", features = ["derive"] }
serde_json = "1"
colored = "*"
anyhow = "1"
tiny_http = "0.12"
ctrlc = "3"
