[package]
name = "xupg"
version = "0.1.0"
edition = "2021"
publish = false

[dependencies]
colored = "*"
dirs-next = "*"
fli = "*"
indicatif = "*"
reqwest = { version = "*", default-features = false, features = ["blocking", "json"] }
serde = { version = "1", features = ["derive"] }
zip = { version = "*", default-features = false, features = ["deflate"] }
