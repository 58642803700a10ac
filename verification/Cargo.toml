[package]
name = "tourist"
version = "0.1.0"
edition = "2021"
publish = false

[dependencies]
uuid = { version = "*", features = ["v4"] }
serde = { version = "*", features = ["derive"] }
serde_json = "*"
git2 = { version = "*", default-features = false }
zip = { version = "*", default-features = false }
dirs = "*"
dotenv = "*"
structopt = "*"
