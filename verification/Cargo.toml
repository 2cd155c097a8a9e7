[package]
name = "visage"
version = "0.1.0"
edition = "2021"
publish = false

[dependencies]
toml = "*"
serde = { version = "*", features = ["derive"] }
serde_json = "*"
libc = "*"
zbus = "*"
tokio = { version = "*", features = ["sync", "rt-multi-thread", "macros", "signal", "time"] }
v4l = "*"
ort = { version = "=2.0.0-rc.13", default-features = false }
ndarray = "*"
tracing = "*"
