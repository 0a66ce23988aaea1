[package]
name = "passfile"
version = "0.1.0"
edition = "2021"
publish = false

[dependencies]
chacha20poly1305 = { version = "0.10", features = ["stream"] }
rust-argon2 = "2"
rand = "0.8"
sublime_fuzzy = "*"
shell-words = "*"
ron = "*"
serde = { version = "1", features = ["derive"] }
lexopt = "*"
nix = { version = "0.29", features = ["mman", "resource", "term", "process"] }
arboard = { version = "*", default-features = false }
owo-colors = "*"
supports-color = "*"
path-absolutize = "*"
xdg = "*"
