[package]
name = "span_registry"
version = "0.1.0"
edition = "2021"
publish = false

[dependencies]
serde_json = "=1.0.154"
sharded-slab = "=0.1.7"
tracing = "=0.1.44"
tracing-core = "=0.1.36"
tracing-subscriber = "=0.1.6"
