[package]
name = "uiua_debugger"
version = "0.1.0"
edition = "2021"
publish = false

[dependencies]
uiua = { version = "=0.19.1", default-features = false, features = ["native_sys"] }
clap = { version = "=4.6.7", features = ["cargo"] }
crossterm = "=0.29.0"
ratatui = "=0.30.2"
