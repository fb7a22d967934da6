[package]
name = "imgdupes"
version = "0.1.0"
edition = "2021"
publish = false

[dependencies]
bitvec = "1"
clap = { version = "4", features = ["derive"] }
image = "0.25"
indicatif = { version = "0.17", features = ["rayon"] }
rayon = "1"
serde_json = "1"
walkdir = "2"
