[package]
name = "pseudocode"
version = "0.1.0"
edition = "2021"
publish = false

[dependencies]
color-eyre = "*"
edtui = "*"
ratatui = "*"
serde = { version = "*", features = ["derive"] }
