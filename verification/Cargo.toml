[package]
name = "ocp_mock"
version = "0.1.0"
edition = "2021"
publish = false

[dependencies]
actix-web = { version = "4", default-features = false, features = ["macros"] }
clap = { version = "4", features = ["derive"] }
qrcode = { version = "*", default-features = false }
serde_json = "1"
time = { version = "0.3", features = ["formatting"] }
