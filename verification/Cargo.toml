[package]
name = "md2x-core"
version = "0.3.0"
edition = "2021"
publish = false

[dependencies]
comrak = { version = "0.28", default-features = false }
serde = { version = "1", features = ["derive"] }
serde_json = "1"
syntect = { version = "5", default-features = false, features = ["default-fancy"] }
zip = { version = "2", default-features = false, features = ["deflate"] }
ureq = "2"
clap = { version = "4", features = ["derive"] }
