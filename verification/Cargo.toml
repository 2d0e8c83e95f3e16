[package]
name = "specgate"
version = "0.1.0"
edition = "2021"
publish = false

[dependencies]
serde = { version = "=1.0.229", features = ["derive"] }
serde_json = "=1.0.154"
globset = "=0.4.21"
thiserror = "=2.0.21"
walkdir = "=2.5.0"
oxc_allocator = "=0.143.0"
oxc_ast = "=0.143.0"
oxc_parser = "=0.143.0"
oxc_span = "=0.143.0"
yaml_serde = "*"
