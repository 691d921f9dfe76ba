[package]
name = "recordplayer"
version = "0.1.0"
edition = "2021"
publish = false

[dependencies]
dirs = "5"
rtrb = "0.3"
rusqlite = { version = "0.32", features = ["bundled"] }
rustfft = "6"
serde = { version = "1", features = ["derive"] }
symphonia = { version = "0.5", features = ["all"] }
thiserror = "1"
cpal = "0.15"
