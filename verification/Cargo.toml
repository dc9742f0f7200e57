[package]
name = "ceb_outages"
version = "0.1.0"
edition = "2021"
publish = false

[dependencies]
attohttpc = "0.26"
chrono = "0.4"
regex = "1"
serde_json = "1"
table-extract = "*"
