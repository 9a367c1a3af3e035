[package]
name = "corona_stats"
version = "0.1.0"
edition = "2021"
publish = false

[dependencies]
csv = "1"
regex = "1"
curl = "0.4"
failure = "0.1"
termion = "1.5"
tui = "0.8"
