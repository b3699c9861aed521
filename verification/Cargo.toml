[package]
name = "protogen"
version = "0.1.0"
edition = "2021"
publish = false

[dependencies]
indexmap = "=2.14.2"
convert_case = "=0.12.0"
clap = { version = "=4.6.7", features = ["derive"] }
walkdir = "=2.5.0"
tera = { version = "=2.4.0", features = ["glob_fs"] }
serde = { version = "=1.0.229", features = ["derive"] }
serde_json = "=1.0.154"
