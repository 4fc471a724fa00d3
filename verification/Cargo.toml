[package]
name = "trolly-gym"
version = "0.1.0"
edition = "2021"
publish = false

[dependencies]
sha2 = "0.10"
serde = { version = "1", features = ["derive"] }
serde_json = "1"
ureq = "2"
ort = { version = "2.0.0-rc.10", default-features = false, features = ["std", "load-dynamic"] }

[dev-dependencies]
ureq = "2"
