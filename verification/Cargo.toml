[package]
name = "wm"
version = "0.1.0"
edition = "2021"
publish = false

[dependencies]
anyhow = "=1.0.104"
objc2 = "=0.6.5"
objc2-app-kit = "=0.3.2"
objc2-application-services = "=0.3.2"
objc2-core-foundation = "=0.3.2"
objc2-core-graphics = "=0.3.2"
objc2-quartz-core = "=0.3.2"
tokio = { version = "=1.54.1", features = ["macros", "rt", "rt-multi-thread", "sync", "time"] }
tracing = "=0.1.44"
uuid = { version = "=1.29.0", features = ["v4"] }
windows = { version = "=0.52.0", features = ["Win32_Foundation", "Win32_Graphics_DirectComposition", "Win32_Graphics_Dwm", "Win32_Graphics_Gdi", "Win32_UI_WindowsAndMessaging"] }
