[package]
name = "personal_site"
version = "0.1.0"
edition = "2021"
publish = false

[dependencies]
indextree = "4"
chrono = "0.4"
regex = "1"
serde = { version = "1", features = ["derive"] }
gray_matter = "0.2"
pulldown-cmark = "0.12"
syntect = { version = "5", default-features = false, features = ["default-syntaxes", "default-themes", "html", "regex-fancy"] }
thiserror = "2"
