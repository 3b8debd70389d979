[package]
name = "tessera"
version = "0.1.0"
edition = "2021"
publish = false

[dependencies]
byteorder = "1"
pathdiff = "0.2"
gltf = { version = "1", features = ["extensions"] }
serde = { version = "1", features = ["derive"] }
serde_json = "1"
thiserror = "*"
clap = { version = "4", features = ["derive"] }
tokio = { version = "1", features = ["macros", "rt-multi-thread"] }
tracing = "0.1"
tracing-subscriber = "0.3"
rayon = "1"
draco-rs = "*"
autocxx = "*"
