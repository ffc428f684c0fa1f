[package]
name = "tutel"
version = "0.1.0"
edition = "2021"
publish = false

[dependencies]
toml = { version = "=0.8.23", features = ["preserve_order"] }
bpaf = { version = "=0.9.28", features = ["autocomplete"] }
owo-colors = "=4.4.0"
tempfile = "=3.27.0"
