[package]
name = "ndi_client"
version = "0.1.0"
edition = "2021"
publish = false

[dependencies]
dashmap = "=6.2.1"
color-eyre = "=0.6.5"
image = { version = "=0.25.10", default-features = false }
keep-active = "=0.2.0"
ndi = "=0.1.2"
serde = { version = "=1.0.229", features = ["derive"] }
tokio = { version = "=1.54.1", features = ["rt", "macros"] }
toml = "=0.8.23"
tracing = "=0.1.44"
tracing-subscriber = { version = "=0.3.23", features = ["env-filter"] }
tracing-tracy = "0.11"
wgpu = { version = "25", default-features = false, features = ["vulkan", "wgsl"] }
winit = { version = "=0.30.13", default-features = false, features = ["x11"] }
