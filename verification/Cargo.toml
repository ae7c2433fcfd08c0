[package]
name = "vast_player"
version = "0.1.0"
edition = "2021"
publish = false

[dependencies]
anyhow = "1"
audiotags = "*"
battery = "*"
chrono = "*"
clap = { version = "4", features = ["derive"] }
fxhash = "0.2"
rodio = "*"
serde_json = "1"
souvlaki = "*"
tracing = "*"
tracing-subscriber = "*"
