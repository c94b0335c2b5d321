[package]
name = "rrh"
version = "0.1.0"
edition = "2021"
publish = false

[dependencies]
chrono = "*"
chrono-humanize = "*"
git-url-parse = "*"
clap = { version = "*", features = ["derive"] }
dirs = "*"
dotenv = "*"
serde = { version = "*", features = ["derive"] }
serde_json = "*"
inquire = "*"
open = "*"
git2 = "*"
tabled = "*"
termion = "*"
