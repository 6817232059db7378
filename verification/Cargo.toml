[package]
name = "wildfly_container_versions"
version = "0.1.0"
edition = "2021"
publish = false

[dependencies]
anyhow = "1"
lazy_static = "1"
semver = "1"

[dev-dependencies]
regex = "1"
