[package]
name = "yer"
version = "0.1.0"
edition = "2021"
publish = false

[dependencies]
uuid = { version = "*", features = ["v7"] }
serde = { version = "*", features = ["derive"] }
serde_bytes = "*"
rmp-serde = "*"
toml = "*"
thiserror = "*"
directories = "*"
image = { version = "*", default-features = false, features = ["png"] }
bevy = { version = "=0.17.3", default-features = false, features = ["std", "bevy_state", "bevy_log"] }
