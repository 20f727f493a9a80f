[package]
name = "jgrep3"
version = "0.1.2"
edition = "2021"
publish = false

[dependencies]
regex = "1"
encoding_rs = "0.8"
memchr = "2"
serde = { version = "1", features = ["derive"] }
toml = "0.8"
native-windows-gui = { version = "1.0.12", features = ["combobox", "list-view", "tree-view", "menu", "status-bar", "image-list", "cursor", "file-dialog", "frame", "high-dpi", "progress-bar"] }
native-windows-derive = "1"
windows = { version = "0.58", features = ["Win32_Foundation", "Win32_Graphics_Gdi", "Win32_Graphics_Dwm", "Win32_UI_WindowsAndMessaging", "Win32_UI_Controls", "Win32_UI_Input_KeyboardAndMouse", "Win32_UI_Shell", "Win32_System_LibraryLoader", "Win32_System_Registry", "Win32_Storage_FileSystem"] }
