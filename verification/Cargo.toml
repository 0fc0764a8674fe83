[package]
name = "rubyfast"
version = "0.1.0"
edition = "2021"
publish = false

[dependencies]
ruby-prism = "*"
lib-ruby-parser = "4"
serde = { version = "1", features = ["derive"] }
serde_yaml = "0.9"
anyhow = "1"
clap = { version = "4", features = ["derive"] }
colored = "3"
glob = "0.3"
rayon = "1"
