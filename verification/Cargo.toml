[package]
name = "embolden"
version = "0.1.0"
edition = "2021"
publish = false

[dependencies]
kurbo = "0.11"
ttf-parser = "0.25"
krilla = { version = "*", default-features = false }
bytemuck = { version = "1", features = ["derive"] }
