[package]
name = "orthoterm"
version = "0.1.0"
edition = "2021"
publish = false

[dependencies]
anyhow = "*"
chrono = "*"
dirs = "*"
directories = "*"
icalendar = "*"
reqwest = { version = "*", default-features = false, features = ["blocking"] }
