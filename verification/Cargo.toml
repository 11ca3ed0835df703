[package]
name = "md_reader"
version = "0.1.0"
edition = "2021"
publish = false

[dependencies]
yaml-rust = "0.4"
camino = "1"
colored = "2"
crossterm = "0.25"
tui = "0.19"
walkdir = "2"
