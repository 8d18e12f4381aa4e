[package]
name = "filesearch"
version = "0.1.0"
edition = "2021"
publish = false

[dependencies]
regex = "*"
globset = "*"
fuzzy-matcher = "*"
sha2 = "*"
mime_guess = "*"
encoding_rs = "*"
chardetng = "*"
notify = "*"
serde = { version = "*", features = ["derive"] }
serde_json = "*"
toml = "*"
