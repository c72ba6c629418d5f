[package]
name = "cjkfmt"
version = "0.1.0"
edition = "2021"
publish = false

[dependencies]
unicode-segmentation = "*"
unicode-width = "*"
unicode-linebreak = "*"
unicode-general-category = "*"
anyhow = "*"
clap = { version = "*", features = ["derive"] }
figment = { version = "*", features = ["env", "json"] }
serde = { version = "*", features = ["derive"] }
yansi = "*"
