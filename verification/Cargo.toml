[package]
name = "rtend"
version = "0.1.0"
edition = "2021"
publish = false

[dependencies]
atty = "=0.2.14"
clap = "=4.6.7"
comfy-table = "=8.0.1"
directories = "=6.0.0"
rusqlite = { version = "=0.40.2", features = ["bundled"] }
scrawl = "=2.0.0"
term_size = "=0.3.2"
time = { version = "=0.3.55", features = ["formatting"] }
