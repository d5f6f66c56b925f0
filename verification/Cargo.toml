[package]
name = "fast_package_manager"
version = "0.1.0"
edition = "2021"
publish = false

[dependencies]
semver = "*"
node-semver = "*"
serde = { version = "*", features = ["derive"] }
serde_json = "*"
indexmap = { version = "*", features = ["serde"] }
reqwest = { version = "*", default-features = false, features = ["json"] }
tokio = { version = "*", features = ["full"] }
futures = "*"
flate2 = "*"
tar = "*"
