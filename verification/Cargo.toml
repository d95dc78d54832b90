[package]
name = "conduit"
version = "0.1.0"
edition = "2021"
publish = false

[dependencies]
uuid = "1"
anyhow = "1"
clap = { version = "4", features = ["derive"] }
dropshot = "0.16"
http = "1"
reqwest = { version = "0.12", default-features = false, features = ["json", "rustls-tls"] }
slog = "2"
tokio = { version = "1", features = ["rt-multi-thread", "macros", "time"] }
