[package]
name = "chunked_upload"
version = "0.1.0"
edition = "2021"
publish = false

[dependencies]
md-5 = "*"
sha2 = "*"
uuid = { version = "*", features = ["v4"] }
sanitize-filename = "*"
