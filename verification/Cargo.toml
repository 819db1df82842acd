[package]
name = "clamm_sim"
version = "0.1.0"
edition = "2021"
publish = false

[dependencies]
alloy = { version = "*", default-features = false, features = ["providers", "transport-http", "sol-types", "contract"] }
tokio = { version = "*", features = ["macros", "rt-multi-thread"] }
