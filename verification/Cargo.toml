[package]
name = "topola"
version = "0.1.0"
edition = "2021"
publish = false

[dependencies]
approx = "=0.5.1"
geo = { version = "=0.33.1", features = ["serde"] }
rstar = "=0.14.0"
serde = { version = "=1.0.229", features = ["derive"] }
thiserror = "=2.0.21"
utf8-chars = "=3.0.7"
