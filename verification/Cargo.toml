[package]
name = "respeaker_algo"
version = "0.1.0"
edition = "2021"
publish = false

[dependencies]
axum = "0.7"
bytes = "1"
chrono = "0.4"
ctrlc = "3"
futures-util = "0.3"
realfft = "3"
serde = { version = "1", features = ["derive"] }
serde_json = "1"
tokio = { version = "1", features = ["rt-multi-thread", "net", "sync", "macros", "time", "fs", "io-util"] }
tokio-stream = { version = "0.1", features = ["sync"] }
toml = "0.8"
wasapi = "*"
windows-sys = { version = "0.59", features = ["Win32_Foundation", "Win32_Storage_FileSystem"] }

[dev-dependencies]
hound = "3"
