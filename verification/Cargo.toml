[package]
name = "structural_typesystem"
version = "0.1.0"
edition = "2021"
publish = false

[dependencies]
symbolic_expressions = "*"
anyhow = "1"
log = "0.4"
project-root = "*"
tracing = "0.1"
tracing-subscriber = "0.3"
