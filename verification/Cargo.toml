[package]
name = "mhw_radar"
version = "0.1.0"
edition = "2021"
publish = false

[dependencies]
serde = { version = "=1.0.229", features = ["derive"] }
serde_json = "=1.0.154"
reqwest = { version = "=0.12.28", default-features = false, features = ["blocking", "rustls-tls"] }
sha2 = "=0.10.9"
hex = "=0.4.3"
zip = { version = "=0.6.6", default-features = false, features = ["deflate"] }
process-memory = "=0.5.0"
winapi = { version = "=0.3.9", features = ["minwindef", "windef", "winnt", "handleapi", "processthreadsapi", "psapi", "winuser", "timeapi"] }
sysinfo = "0.30"
