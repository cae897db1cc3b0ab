[package]
name = "telemetry"
version = "0.1.0"
edition = "2021"
publish = false

[dependencies]
actix = "=0.13.5"
actix-web = { version = "=4.18.1", default-features = false, features = ["ws"] }
actix-web-actors = "4.3"
log = "=0.4.34"
simple_logger = "=1.16.0"
