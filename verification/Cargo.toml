[package]
name = "twitch_tui"
version = "0.1.0"
edition = "2021"
publish = false

[dependencies]
chrono = "=0.4.45"
fuzzy-matcher = "=0.3.7"
textwrap = "=0.16.4"
unicode-width = "=0.1.14"
memchr = "=2.8.3"
ratatui = { version = "=0.23.0", default-features = false, features = ["crossterm"] }
