[package]
name = "srcp"
version = "0.1.0"
edition = "2021"
publish = false

[dependencies]
chrono = { version = "0.4", default-features = false }
threadpool = "1"
ncurses = "5"
