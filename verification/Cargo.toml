[package]
name = "spread_cli"
version = "0.1.0"
edition = "2021"
publish = false

[dependencies]
spreadsheet-to-json = "=0.5.0"
enclose-strings = { version = "=0.3.0", features = ["extract"] }
simple-string-patterns = "=0.4.0"
to_segments = "=0.1.2"
dotenv = "=0.15.0"
uuid = { version = "=1.29.0", features = ["v4"] }
clap = { version = "=4.6.7", features = ["derive"] }
