[package]
name = "gpui_scene"
version = "0.1.0"
edition = "2021"
publish = false

[dependencies]
smallvec = "1"
log = "0.4"
serde = { version = "1", features = ["derive"] }
schemars = "1"
