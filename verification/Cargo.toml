[package]
name = "wineventlog"
version = "0.1.0"
edition = "2021"
publish = false

[dependencies]
roxmltree = "*"
log = "*"
serde = { version = "*", features = ["derive"] }
serde_json = "*"
serde_yaml = "*"
clap = { version = "*", features = ["derive"] }
windows = { version = "*", features = ["Win32_Foundation", "Win32_Security", "Win32_System_EventLog", "Win32_System_Threading", "Win32_UI_Shell", "Win32_UI_WindowsAndMessaging"] }
