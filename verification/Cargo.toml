[package]
name = "worldsong"
version = "0.1.0"
edition = "2021"
publish = false

[dependencies]
toml = "0.1"
rustc-serialize = "0.3"
getopts = "*"
sdl2 = { version = "*", default-features = false }
