[package]
name = "auth_core"
version = "0.1.0"
edition = "2021"
publish = false

[dependencies]
jsonwebtoken = "=9.3.1"
bcrypt = "=0.19.3"
uuid = { version = "=1.27.0", features = ["v4"] }
chrono = "=0.4.45"

[dev-dependencies]
serde_json = "1"
