[package]
name = "tome"
version = "0.1.0"
edition = "2021"
publish = false

[dependencies]
gitignored = "=0.4.0"

[dev-dependencies]
globset = "=0.4.20"
