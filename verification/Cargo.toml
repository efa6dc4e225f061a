[package]
name = "docparse"
version = "0.1.0"
edition = "2021"
publish = false

[dependencies]
calamine = "*"
chrono = "*"
clap = { version = "*", features = ["derive"] }
docx-rs = "*"
glob = "*"
lopdf = "*"
pdf-extract = "*"
quick-xml = "*"
serde = { version = "*", features = ["derive"] }
serde_json = "*"
thiserror = "*"
zip = "*"
