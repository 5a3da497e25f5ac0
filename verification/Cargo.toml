[package]
name = "scrabble"
version = "0.1.0"
edition = "2021"

[dependencies]
crossterm = "0.25"
tui = "0.19"
