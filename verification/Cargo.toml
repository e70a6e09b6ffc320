[package]
name = "word_suggest"
version = "0.1.0"
edition = "2021"

[dependencies]
crossterm = "*"
ratatui = "*"
