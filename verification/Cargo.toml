[package]
name = "monotrail_core"
version = "0.1.0"
edition = "2021"
publish = false

[dependencies]
fs-err = "*"
pep508_rs = "*"
zip = { version = "*", default-features = false, features = ["deflate"] }
sha2 = "*"
data-encoding = "*"
platform-info = "*"
