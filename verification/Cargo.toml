[package]
name = "carrick"
version = "0.1.0"
edition = "2021"
publish = false

[dependencies]
regex = "1"
sha2 = "0.10"
serde = { version = "1", features = ["derive"] }
serde_json = "1"
chrono = { version = "0.4", features = ["serde"] }
walkdir = "2"
tokio = { version = "1", features = ["rt", "macros", "time"] }
reqwest = { version = "0.12", default-features = false, features = ["json"] }
swc_common = "*"
swc_ecma_ast = "*"
swc_ecma_visit = "*"
swc_ecma_parser = "*"
tracing = "0.1"
