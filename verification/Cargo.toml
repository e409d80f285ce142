[package]
name = "fixture_notify"
version = "0.1.0"
edition = "2021"
publish = false

[dependencies]
regex = "*"
scraper = "*"
serde = { version = "*", features = ["derive"] }
toml = "*"
url = { version = "*", features = ["serde"] }
time = { version = "*", features = ["serde", "serde-human-readable", "parsing", "formatting", "macros"] }
clap = { version = "*", features = ["derive"] }
tokio = { version = "*", features = ["rt-multi-thread", "macros", "fs"] }
reqwest = { version = "*", default-features = false, features = ["json"] }
tera = "*"
