[package]
name = "vscode_rust"
version = "0.1.0"
edition = "2021"
publish = false

[dependencies]
regex = "=1.13.1"
similar = "=2.7.0"
walkdir = "=2.5.0"
notify = "=8.2.1"
serde_json = "=1.0.154"
syntect = { version = "5", default-features = false, features = ["default-syntaxes", "parsing", "plist-load", "regex-fancy"] }
