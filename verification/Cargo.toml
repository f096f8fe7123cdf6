[package]
name = "sashiki"
version = "0.1.0"
edition = "2021"
publish = false

[dependencies]
similar = "=3.2.1"
ropey = "=1.6.1"
unicode-width = "=0.2.3"
vte = "=0.15.0"
regex = "=1.13.1"
glob = "=0.3.4"
serde = { version = "=1.0.229", features = ["derive"] }
serde_json = "=1.0.154"
font-kit = "=0.14.3"
content_inspector = "*"
url = "*"
