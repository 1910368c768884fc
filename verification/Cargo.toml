[package]
name = "http_server"
version = "0.1.0"
edition = "2021"
publish = false

[dependencies]
chrono = "0.4"
ctrlc = "3"
flate2 = "1"
mime_guess = "2"
