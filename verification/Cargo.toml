[package]
name = "todomvc"
version = "0.1.0"
edition = "2021"
publish = false

[dependencies]
bevy = { version = "=0.1.3", default-features = false }
notify = "=5.0.0-pre.2"
rand = "=0.7.3"
