[package]
name = "arith_sheets"
version = "0.1.0"
edition = "2021"
publish = false

[dependencies]
rand = "0.9"
docx-rs = "0.4"
clap = { version = "4", features = ["derive"] }
