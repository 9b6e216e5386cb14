[package]
name = "matrix_lang"
version = "0.1.0"
edition = "2021"
publish = false

[dependencies]
clap = "4"
rustyline = "*"
thiserror = "1"
serde = { version = "1", features = ["derive"] }
serde_json = "1"
rand = "0.8"
chrono = "0.4"
num-complex = "0.4"
