[package]
name = "yew-data-grid"
version = "0.1.0"
edition = "2021"
publish = false

[dependencies]
yew = { version = "0.20", features = ["csr"] }
instant = "0.1"
log = "0.4"
