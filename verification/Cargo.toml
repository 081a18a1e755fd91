[package]
name = "nullstack_swc"
version = "0.1.0"
edition = "2021"
publish = false

[dependencies]
crc32fast = "=1.5.4"
md5 = "=0.7.0"
serde = { version = "=1.0.219", features = ["derive"] }
serde_json = "=1.0.140"
swc_core = { version = "=0.79.71", features = ["ecma_ast", "ecma_visit", "common", "ecma_plugin_transform"] }
