[package]
name = "inv_manager"
version = "0.1.0"
edition = "2021"
publish = false

[dependencies]
serde = { version = "1", features = ["derive"] }
serde_json = "1"
structopt = "0.3"
dirs = "5"
humantime = "2"
prettytable-rs = "0.10"
