[package]
name = "patience"
version = "0.1.0"
edition = "2021"
publish = false

[dependencies]
rand = "0.9"
serde = { version = "1", features = ["derive"] }
serde_json = "1"
strum = { version = "0.27", features = ["derive"] }
glam = "0.29"
async-std = "1"
dioxus = { version = "0.6", default-features = false, features = ["macro", "html", "hooks", "signals"] }
