[package]
name = "capture_store"
version = "0.1.0"
edition = "2021"
publish = false

[dependencies]
build_html = "=2.8.0"
actix-web = { version = "=4.15.0", default-features = false, features = ["macros"] }

[dev-dependencies]
actix-rt = "=2.15.0"
