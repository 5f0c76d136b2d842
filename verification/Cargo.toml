[package]
name = "gecs"
version = "0.1.0"
edition = "2021"
publish = false

[dependencies]
base64 = "*"
convert_case = "*"
speedy = "*"
syn = { version = "2", features = ["full"] }
quote = "*"
proc-macro2 = "*"
xxhash-rust = { version = "*", features = ["xxh3"] }
