[package]
name = "game_monitor"
version = "0.1.0"
edition = "2021"
publish = false

[dependencies]
quick-xml = "*"
tokio = { version = "*", features = ["rt-multi-thread", "sync", "time", "macros"] }
windows = { version = "*", features = [
    "implement",
    "Win32_Foundation",
    "Win32_Security",
    "Win32_Storage_FileSystem",
    "Win32_System_Com",
    "Win32_System_Diagnostics_Etw",
    "Win32_System_Diagnostics_ToolHelp",
    "Win32_System_Rpc",
    "Win32_System_Threading",
    "Win32_System_Time",
    "Win32_System_Variant",
    "Win32_System_Wmi",
    "Win32_UI_Accessibility",
    "Win32_UI_WindowsAndMessaging",
    "Data_Xml_Dom",
    "UI_Notifications",
] }
windows-core = "*"
