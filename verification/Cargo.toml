[package]
name = "mdsection"
version = "0.1.0"
edition = "2021"
publish = false

[dependencies]
regex = "*"
pulldown-cmark = "*"
askama = "*"
