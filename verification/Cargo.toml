[package]
name = "modloader"
version = "0.1.0"
edition = "2021"
publish = false

[dependencies]
zip = { version = "*", default-features = false, features = ["deflate"] }
serde = { version = "*", features = ["derive"] }
serde_derive = "*"
serde_json = "*"
reqwest = { version = "*", default-features = false, features = ["blocking"] }

[dev-dependencies]
zip = { version = "*", default-features = false, features = ["deflate"] }
