[package]
name = "shimeji"
version = "0.1.0"
edition = "2021"
publish = false

[dependencies]
image = { version = "0.25", default-features = false, features = ["png", "webp"] }
rand = "*"
serde = { version = "1", features = ["derive"] }
serde_json = "1"
zip = { version = "*", default-features = false, features = ["deflate"] }
tempfile = "3"
roxmltree = "*"
dirs-next = "2"
raw-window-handle = "0.6"
tray-icon = "*"
rfd = "*"
eframe = { version = "*", default-features = false, features = ["glow", "default_fonts"] }
windows = { version = "*", features = ["Win32_Foundation", "Win32_UI_WindowsAndMessaging", "Win32_Graphics_Gdi", "Win32_Graphics_Dwm", "Win32_System_LibraryLoader", "Win32_UI_Shell", "Win32_UI_HiDpi", "Win32_UI_Input_KeyboardAndMouse", "Win32_UI_Controls"] }
