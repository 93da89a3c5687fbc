[package]
name = "login_protocol"
version = "0.1.0"
edition = "2021"
publish = false

[dependencies]
sha2 = "=0.10.9"
serde_json = "=1.0.154"
egui = { version = "=0.27.2", default-features = false }

[dev-dependencies]
serde = "=1.0.229"
