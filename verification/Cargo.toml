[package]
name = "clipscrub"
version = "0.1.0"
edition = "2021"
publish = false

[dependencies]
url = "2"
regex = "1"
serde = { version = "1", features = ["derive"] }
toml = "*"
directories = "*"
thiserror = "*"
arboard = "3"
crossterm = "*"
ratatui = "*"
