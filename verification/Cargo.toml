[package]
name = "arnis"
version = "0.1.0"
edition = "2021"
publish = false

[dependencies]
fnv = "1.0.7"
fastnbt = "2.5.0"
fastanvil = "0.31.0"
serde = { version = "1.0", features = ["derive"] }
colored = "2.1.0"
indicatif = "0.17.8"
