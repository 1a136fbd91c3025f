[package]
name = "rdn"
version = "0.1.0"
edition = "2021"
publish = false

[dependencies]
arboard = { version = "3", default-features = false }
base64 = "0.22"
chrono = "0.4"
crossterm = "0.28"
dirs = "6"
filetime = "0.2"
flate2 = "1"
libc = "0.2"
open = "5"
rand = "0.9"
ratatui = "0.29"
tar = "0.4"
trash = "5"
zip = { version = "2", default-features = false, features = ["deflate"] }
