[package]
name = "precise_isovist"
version = "0.1.0"
edition = "2021"
publish = false

[dependencies]
ordered-float = "*"
dxf = "*"
clap = { version = "4", features = ["derive"] }
