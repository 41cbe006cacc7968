[package]
name = "constellation"
version = "0.1.0"
edition = "2021"
publish = false

[dependencies]
aes_frast = "*"
ansi_term = "0.12"
atty = "0.2"
bincode = "1"
docopt = "1"
either = "1"
multiset = "*"
nix = "0.14"
rand = "0.6"
regex = "1"
serde = { version = "1", features = ["derive"] }
serde_json = "1"
toml = "0.5"
