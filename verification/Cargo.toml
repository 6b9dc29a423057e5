[package]
name = "modal_logic"
version = "0.1.0"
edition = "2021"
publish = false

[dependencies]
midly = "0.5"
thunderdome = "0.6"
bimap = "0.6"
serde = { version = "1", features = ["derive"] }
