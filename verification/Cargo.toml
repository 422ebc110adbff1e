[package]
name = "shortlink"
version = "0.1.0"
edition = "2021"
publish = false

[dependencies]
nanoid = "0.4"
url = "2"
diesel = { version = "2", features = ["postgres"] }
dotenv = "0.15"
rocket = { version = "0.5", features = ["json"] }
serde = { version = "1", features = ["derive"] }
