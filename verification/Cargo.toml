[package]
name = "reachy_mini_flasher"
version = "0.1.0"
edition = "2021"
publish = false

[dependencies]
serde = { version = "1", features = ["derive"] }
serde_json = "1"
plist = "1"
bmap-parser = "*"
flate2 = "1"
zip = { version = "2", default-features = false, features = ["deflate"] }
nusb = "0.1"
dirs = "*"
reqwest = { version = "0.12", default-features = false, features = ["blocking", "rustls-tls"] }
sendfd = "*"
windows = { version = "0.58", features = ["Win32_Foundation", "Win32_Storage_FileSystem", "Win32_System_Ioctl", "Win32_System_IO", "Win32_Security"] }
