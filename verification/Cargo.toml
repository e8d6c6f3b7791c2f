[package]
name = "attendance"
version = "0.1.0"
edition = "2021"
publish = false

[dependencies]
anyhow = "=1.0.104"
async-std = "=1.13.2"
rfd = { version = "0.14", default-features = false, features = ["xdg-portal", "async-std"] }
sled = "=0.34.7"
slint = { version = "=1.4.1", default-features = false, features = ["std", "compat-1-2"] }
time = { version = "=0.3.55", features = ["formatting", "parsing", "macros"] }
umya-spreadsheet = "=1.2.7"

[dev-dependencies]
speedy = "=0.8.7"
