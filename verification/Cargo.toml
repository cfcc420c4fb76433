[package]
name = "usrv"
version = "0.0.1"
edition = "2021"
publish = false

[dependencies]
matchit = "0.8"
form_urlencoded = "1"
ureq-proto = "*"
http = "1"
serde = "1"
serde_json = "1"
serde_urlencoded = "0.7"
serde_path_to_error = "0.1"
