[package]
name = "cloppy"
version = "0.1.0"
edition = "2021"
publish = false

[dependencies]
byteorder = "=1.5.0"
twoway = "=0.2.2"
winapi = { version = "=0.3.9", features = ["winuser", "commctrl", "shellapi", "wingdi", "winioctl", "ioapiset", "combaseapi", "libloaderapi", "objbase", "winerror", "minwindef", "windef", "ntdef", "guiddef", "basetsd", "winnt"] }
slog = "=2.8.2"
slog-term = "=2.9.2"
slog-async = "=2.8.0"
rusqlite = "=0.41.1"
