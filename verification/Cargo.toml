[package]
name = "eipw_lint"
version = "0.1.0"
edition = "2021"
publish = false

[dependencies]
regex = "1"
chrono = { version = "0.4", default-features = false, features = ["clock", "std"] }
url = "2"
scraper = "0.20"
serde_json = "1"
jsonschema = { version = "0.28", default-features = false }
formatx = "0.2"
comrak = { version = "0.29", default-features = false }
annotate-snippets = "0.11"
