[package]
name = "rust-gauge"
version = "0.1.0"
edition = "2021"
publish = false

[dependencies]
anyhow = "1"
directories = "5"
serde = { version = "1", features = ["derive"] }
sysinfo = { version = "0.30", default-features = false }
toml = "0.8"
windows-sys = { version = "0.59", features = ["Win32_Foundation", "Win32_System_Registry", "Win32_System_Performance"] }
