[package]
name = "djled"
version = "0.1.0"
edition = "2021"
publish = false

[dependencies]
anyhow = "=1.0.104"
clap = { version = "=4.6.7", features = ["derive"] }
realfft = "=3.5.1"
ringbuf = "=0.4.8"
serde = { version = "=1.0.229", features = ["derive"] }
serde_json = "=1.0.154"
serialport = { version = "=4.10.1", default-features = false }
tungstenite = "=0.30.0"
windows-sys = { version = "=0.61.2", features = ["Win32_Foundation", "Win32_System_LibraryLoader", "Win32_System_Console", "Win32_System_Threading", "Win32_UI_Shell", "Win32_UI_WindowsAndMessaging", "Win32_UI_Input_KeyboardAndMouse", "Win32_Graphics_Gdi"] }
