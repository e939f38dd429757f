[package]
name = "taskman"
version = "0.1.0"
edition = "2021"
publish = false

[dependencies]
chrono = "0.4"
csv = "1"
tabled = "*"
clap = "4"
dirs = "*"
fs2 = "0.4"
