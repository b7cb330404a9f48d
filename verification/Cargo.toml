[package]
name = "cantix"
version = "0.1.0"
edition = "2021"
publish = false

[dependencies]
indicium = "=0.6.10"
kstring = "=2.0.2"
gql_client = { version = "=1.1.0", default-features = false }
reqwest = { version = "=0.12.28", default-features = false, features = ["json"] }
serde = { version = "=1.0.229", features = ["derive"] }
serde_json = "=1.0.151"
tokio = { version = "=1.53.2", features = ["rt-multi-thread", "macros"] }
