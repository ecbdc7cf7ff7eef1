[package]
name = "ideavault"
version = "0.1.0"
edition = "2021"
publish = false

[dependencies]
chrono = "*"
uuid = { version = "*", features = ["v4"] }
anyhow = "*"
clap = { version = "*", features = ["derive"] }
clap-markdown = "*"
directories = "*"
ureq = "*"

[dev-dependencies]
