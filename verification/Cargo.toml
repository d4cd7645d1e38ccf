[package]
name = "prose_lint"
version = "0.1.0"
edition = "2021"
publish = false

[dependencies]
quick-xml = "*"
unicode-segmentation = "*"
zip = "*"
