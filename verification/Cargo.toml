[package]
name = "landgen"
version = "0.1.0"
edition = "2021"
publish = false

[dependencies]
rand = "*"
sha1 = "*"
png = "*"
mysql_async = "*"
tokio = { version = "*", features = ["sync", "rt", "macros"] }
