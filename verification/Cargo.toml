[package]
name = "preman"
version = "0.1.0"
edition = "2021"
publish = false

[dependencies]
anyhow = "1"
crossterm = "0.27"
dirs = "5"
ratatui = "0.26"
walkdir = "2"
