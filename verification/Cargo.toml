[package]
name = "safe_dns"
version = "0.1.0"
edition = "2021"
publish = false

[dependencies]
maidsafe_utilities = "=0.19.0"
serde = { version = "=1.0.229", features = ["derive"] }
sodiumoxide = "=0.2.7"
