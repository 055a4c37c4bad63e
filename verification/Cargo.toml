[package]
name = "img_server"
version = "0.1.0"
edition = "2021"
publish = false

[dependencies]
kinode_process_lib = { version = "=0.8.5", default-features = false }
