[package]
name = "mod_memory"
version = "0.1.0"
edition = "2021"
publish = false

[dependencies]
sha2 = "0.10"
uuid = { version = "1", features = ["v4", "v5"] }
serde = { version = "1", features = ["derive"] }
serde_json = "1"
time = "0.3"
jsonschema = { version = "0.26", default-features = false }
tokio = { version = "1", features = ["rt", "time", "macros"] }
async-trait = "0.1"
tracing = "0.1"
meilisearch-sdk = { version = "0.27", default-features = false }
