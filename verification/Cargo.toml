[package]
name = "domino"
version = "0.1.0"
edition = "2021"
publish = false

[dependencies]
oxc_allocator = "=0.141.0"
oxc_ast = "=0.141.0"
oxc_ast_visit = "=0.141.0"
oxc_parser = "=0.141.0"
oxc_semantic = "=0.141.0"
oxc_span = "=0.141.0"
oxc_resolver = "=11.24.3"
regex = "=1.13.1"
rustc-hash = "=2.1.3"
serde = { version = "=1.0.229", features = ["derive"] }
serde_json = "=1.0.154"
serde_yaml = "0.9"
glob = "=0.3.4"
ignore = "=0.4.33"
clap = { version = "=4.6.7", features = ["derive"] }
colored = "=3.1.1"
tracing = "=0.1.44"
tracing-subscriber = { version = "=0.3.23", features = ["env-filter"] }
thiserror = "=2.0.21"
