[package]
name = "mailgate"
version = "0.1.0"
edition = "2021"
publish = false

[dependencies]
chrono = "*"
dotenv = "*"
reqwest = { version = "*", default-features = false }
rocket = "*"
rocket_cors = "*"
