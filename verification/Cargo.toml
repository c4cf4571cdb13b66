[package]
name = "prodash"
version = "0.1.0"
edition = "2021"
publish = false

[dependencies]
humantime = "=2.4.0"
tui = "=0.19.0"
tui-react = "=0.19.0"
