[package]
name = "keysnip"
version = "0.1.0"
edition = "2021"
publish = false

[dependencies]
enigo = { version = "0.2", features = ["serde"] }
indexmap = { version = "2", features = ["serde"] }
serde_plain = "1"
log = "0.4"
simplelog = "0.12"
ctrlc = "3"
reqwest = { version = "0.12", default-features = false, features = ["blocking", "json", "default-tls"] }
serde = { version = "1", features = ["derive"] }
tempfile = "3"
url = { version = "2", features = ["serde"] }
petname = "2"
constcat = "0.5"
image = { version = "0.25", default-features = false, features = ["bmp", "png"] }
