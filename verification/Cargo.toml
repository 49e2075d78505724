[package]
name = "muek_engine"
version = "0.1.0"
edition = "2021"
publish = false

[dependencies]
anyhow = "1"
bon = "*"
cpal = "*"
infer = "*"
minimp3 = "0.5"
once_cell = "1"
raw-window-handle = "0.6"
symphonia = "0.5"
tokio = { version = "1", features = ["macros", "rt-multi-thread"] }
tonic = "*"
vst = "0.4"
windows = { version = "*", features = ["Win32_Foundation", "Win32_UI_WindowsAndMessaging"] }
winit = "0.30"
