[package]
name = "lager"
version = "0.1.0"
edition = "2021"
publish = false

[dependencies]
clap = { version = "4", features = ["derive", "env"] }
cliclack = "*"
crossterm = "*"
fs2 = "0.4"
libc = "0.2"
ratatui = "*"
reqwest = { version = "0.12", default-features = false, features = ["blocking", "json", "rustls-tls"] }
rustix = { version = "1", features = ["fs", "process"] }
serde = { version = "1", features = ["derive"] }
serde_json = "1"
toml_edit = { version = "*", features = ["serde"] }
url = "2"
walkdir = "2"
