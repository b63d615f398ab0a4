[package]
name = "comparer_rust"
version = "0.1.0"
edition = "2021"
publish = false

[dependencies]
clap = { version = "=4.6.7", features = ["derive", "env"] }
rayon = "=1.12.0"
rusqlite = { version = "=0.40.2", features = ["bundled"] }
