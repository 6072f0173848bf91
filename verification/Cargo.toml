[package]
name = "libagent"
version = "0.1.0"
edition = "2021"
publish = false

[dependencies]
shell-words = "=1.1.1"
chrono = "=0.4.45"
libc = "=0.2.191"
ctor = "=0.2.9"
windows-sys = { version = "=0.61.2", features = ["Win32_Foundation", "Win32_System_JobObjects", "Win32_Storage_FileSystem", "Win32_System_IO", "Win32_System_Pipes", "Win32_System_Threading", "Win32_Security", "Win32_System_LibraryLoader"] }
