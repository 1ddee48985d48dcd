[package]
name = "jolt_verifier"
version = "0.1.0"
edition = "2021"
publish = false

[dependencies]
ark-bn254 = "=0.4.0"
ark-serialize = { version = "=0.4.2", features = ["std"] }
candid = "=0.10.39"
ic-agent = "=0.35.0"
ic-stable-structures = "=0.6.9"
serde = { version = "=1.0.229", features = ["derive"] }
thiserror = "=1.0.69"
tokio = { version = "=1.54.1", features = ["macros", "rt-multi-thread"] }
