[package]
name = "web_style_transformer"
version = "0.1.0"
edition = "2021"
publish = false
