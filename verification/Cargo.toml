[package]
name = "verditum"
version = "0.1.0"
edition = "2021"
publish = false

[dependencies]
cms = "0.2"
der = { version = "0.7", features = ["alloc", "oid"] }
x509-cert = "0.2"
ring = "0.17"
zip = { version = "2", default-features = false, features = ["deflate"] }
roxmltree = "0.20"
lopdf = "0.36"
fontdb = "0.23"
ttf-parser = "0.25"
subsetter = "0.2"
image = { version = "0.25", default-features = false, features = ["png", "jpeg", "gif", "bmp", "webp"] }
base64 = "0.22"
serde = { version = "1", features = ["derive"] }
log = "0.4"
