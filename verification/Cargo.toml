[package]
name = "docx_merge"
version = "0.1.0"
edition = "2021"
publish = false

[dependencies]
zip = "=8.6.0"
quick-xml = "=0.30.0"
glob = "=0.3.4"
