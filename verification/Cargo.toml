[package]
name = "source_formats"
version = "0.1.0"
edition = "2021"
publish = false

[dependencies]
indexmap = "2"
serde = { version = "1", features = ["derive"] }
thiserror = "*"
dashmap = "*"
derive_more = { version = "*", features = ["deref", "deref_mut", "into_iterator"] }
steamlocate = "*"
