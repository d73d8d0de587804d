[package]
name = "tetris"
version = "0.1.0"
edition = "2021"
publish = false

[dependencies]
rand = "0.7"
termion = "1.5"
tui = { version = "0.16", default-features = false, features = ["termion"] }
