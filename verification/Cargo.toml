[package]
name = "omnigraph"
version = "0.1.0"
edition = "2021"
publish = false

[dependencies]
arrow-array = "=58.4.1"
arrow-schema = "=58.4.1"
datafusion = { version = "=54.1.0", default-features = false }
futures = "0.3"
lance-core = { version = "=10.0.0", default-features = false }
lance-file = { version = "=10.0.0", default-features = false }
lance-namespace = { version = "=10.0.0", default-features = false }
lance-table = { version = "=10.0.0", default-features = false }
object_store = { version = "=0.13.2", default-features = false }
thiserror = "2"
ulid = "=1.2.1"
