[package]
name = "cbp"
version = "0.1.0"
edition = "2021"
publish = false

[dependencies]
anyhow = "1"
chrono = "0.4"
clap = { version = "4", features = ["cargo"] }
cmd_lib = "1"
dirs = "5"
dunce = "1"
flate2 = "1"
glob = "0.3"
jsonschema = { version = "0.18", default-features = false }
md-5 = "0.10"
regex = "1"
serde = { version = "1", features = ["derive"] }
serde_json = "1"
tar = "0.4"
tempfile = "3"
ureq = { version = "2", features = ["json"] }
walkdir = "2"
