[package]
name = "kanji_tool"
version = "0.1.0"
edition = "2021"
publish = false

[dependencies]
csv = "=1.4.0"
jmdict = { version = "=2.0.0", features = ["db-empty"] }
lindera = { version = "=1.0.0", features = ["ipadic"] }
lindera-dictionary = "=1.0.0"
lindera-ipadic = "=1.0.0"
serde = { version = "=1.0.229", features = ["derive"] }
serde_json = "=1.0.151"
uuid = { version = "=1.27.0", features = ["v4"] }
