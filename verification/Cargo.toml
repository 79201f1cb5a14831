[package]
name = "treescan"
version = "0.1.0"
edition = "2021"
publish = false

[dependencies]
clap = "4"
fs_extra = "1"
human_bytes = "0.4"
rayon = "1"
regex = "1"
tempfile = "3"
walkdir = "2"
