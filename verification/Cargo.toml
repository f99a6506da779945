[package]
name = "sound_themer"
version = "0.1.0"
edition = "2021"
publish = false

[dependencies]
symphonia = { version = "=0.6.1", default-features = false, features = ["all-meta", "flac", "ogg", "pcm", "vorbis", "wav"] }
rand = "=0.10.3"
clap = { version = "=4.6.7", features = ["derive"] }
serde = { version = "=1.0.229", features = ["derive"] }
toml = "=1.1.7"
