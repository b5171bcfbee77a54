[package]
name = "rtk_core"
version = "0.1.0"
edition = "2021"
publish = false

[dependencies]
anyhow = "1"
codepage = "0.1"
encoding_rs = "0.8"
oem_cp = "*"
regex = "1"
serde_json = "1"
which = "*"
windows-sys = { version = "0.61", features = ["Win32_Globalization", "Win32_System_Console"] }
