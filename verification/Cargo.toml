[package]
name = "system_utils"
version = "0.1.0"
edition = "2021"
publish = false

[dependencies]
sysinfo = "*"
tokio = { version = "*", features = ["full"] }
chrono = "*"
serde = { version = "*", features = ["derive"] }
network-interface = "*"
battery = "*"
cpal = "*"
display-info = "*"
nokhwa = "*"
rusb = "*"
wgpu = "*"
winreg = "*"
