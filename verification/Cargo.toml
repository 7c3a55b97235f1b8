[package]
name = "rust_graphql_generator_demo"
version = "0.1.0"
edition = "2021"
publish = false

[dependencies]
heck = "=0.4.1"
proc-macro2 = "=1.0.107"
quote = "=1.0.47"
sea-orm-codegen = "=2.0.4"
sea-query = "=1.0.2"
sea-schema = { version = "=0.18.1", features = ["sqlx-sqlite", "runtime-tokio"] }
serde = { version = "=1.0.229", features = ["derive"] }
serde_derive = "=1.0.229"
sqlx = { version = "=0.9.0", features = ["sqlite", "runtime-tokio"] }
tokio = { version = "=1.54.1", features = ["macros", "rt-multi-thread"] }
toml = "=1.1.8"
