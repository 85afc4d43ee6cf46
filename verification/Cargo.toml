[package]
name = "cellauto3d"
version = "0.1.0"
edition = "2021"
publish = false

[dependencies]
rand = "=0.8.5"
xorwowgen = "=0.4.0"
rayon = "=1.12.0"
clap = { version = "=4.6.7", features = ["derive"] }
