[package]
name = "fastcgi_cli"
version = "0.1.0"
edition = "2021"
publish = false

[dependencies]
anyhow = "=1.0.104"
clap = { version = "=4.6.7", features = ["derive"] }
fastcgi-client = "=0.9.0"
tokio = { version = "=1.54.1", features = ["fs", "io-std", "io-util", "macros", "net", "rt-multi-thread"] }
url = "=2.5.8"

[dev-dependencies]
nom = "=7.1.3"
