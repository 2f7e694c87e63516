[package]
name = "llm_wiki"
version = "0.1.0"
edition = "2021"
publish = false

[dependencies]
md-5 = "0.10"
reqwest = { version = "0.12", default-features = false, features = ["cookies", "json"] }
serde = { version = "1", features = ["derive"] }
serde_json = "1"
tokio = { version = "1", features = ["rt", "sync", "time"] }
uuid = { version = "1", features = ["v4"] }
webview2-com = "0.38"
windows-core = "0.61"
