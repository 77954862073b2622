[package]
name = "voiceguard"
version = "0.3.0"
edition = "2021"
publish = false

[dependencies]
crossbeam-channel = "=0.5.17"
realfft = "=3.5.1"
ort = { version = "=2.0.0-rc.15", default-features = false, features = ["std", "load-dynamic"] }
windows-sys = { version = "=0.59.0", features = ["Win32_System_LibraryLoader", "Win32_Foundation"] }
