[package]
name = "field_level_entitlement_filter"
version = "1.2.0"
edition = "2021"
publish = false

[dependencies]
anyhow = "1.0"
pdk = "*"
serde = { version = "1.0", features = ["derive"] }
serde_json = "1.0"
