[package]
name = "class_pollution_detection"
version = "0.1.0"
edition = "2021"
publish = false

[dependencies]
anyhow = "*"
bzip2 = "*"
clap = { version = "*", features = ["derive", "env"] }
codespan-reporting = "*"
flate2 = "*"
inquire = "*"
itertools = "*"
reqwest = { version = "*", default-features = false, features = ["blocking"] }
serde = { version = "*", features = ["derive"] }
serde_json = "*"
signal-child = "*"
tar = "*"
tempdir = "*"
thiserror = "*"
toml = "*"
tracing = "*"
tracing-subscriber = "*"
wait-timeout = "*"
zip = { version = "*", default-features = false, features = ["deflate"] }
