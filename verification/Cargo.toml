[package]
name = "uncontainerizable"
version = "0.1.0"
edition = "2021"
publish = false

[dependencies]
async-trait = "=0.1.92"
tokio = { version = "=1.54.1", features = ["full"] }
nix = { version = "=0.31.3", features = ["signal", "process"] }
kill_tree = { version = "=0.2.4", features = ["tokio"] }
serde = { version = "=1.0.229", features = ["derive"] }
serde_json = "=1.0.154"
thiserror = "=2.0.21"
napi = { version = "=3.16.1", features = ["async", "napi4"] }
napi-derive = "=3.7.0"
windows = { version = "=0.52.0", features = ["Win32_Foundation", "Win32_Security", "Win32_System_Diagnostics_ToolHelp", "Win32_System_JobObjects", "Win32_System_Threading", "Win32_UI_WindowsAndMessaging"] }
