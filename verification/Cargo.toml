[package]
name = "nx_picker"
version = "0.1.0"
edition = "2021"
publish = false

[dependencies]
serde_json = "1"
fuzzy-matcher = "0.3"
crossterm = "0.28"
ratatui = "0.29"
tui-textarea = "0.7"
