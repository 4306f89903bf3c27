[package]
name = "pasteboard"
version = "0.1.0"
edition = "2021"
publish = false

[dependencies]
base64 = "=0.22.1"
serde = { version = "1", features = ["derive"] }
serde_json = "1"
rusqlite = { version = "0.37", features = ["bundled"] }
image = { version = "0.25", default-features = false, features = ["png"] }
arboard = "3"
enigo = "0.2"
clipboard-master = "4"
windows = { version = "0.58", features = ["Win32_Foundation", "Win32_Graphics_Gdi", "Win32_UI_WindowsAndMessaging", "Win32_UI_Accessibility", "Win32_System_LibraryLoader"] }
