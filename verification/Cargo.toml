[package]
name = "i18n_status_core"
version = "0.1.0"
edition = "2021"
publish = false

[dependencies]
anyhow = "*"
ignore = "*"
rayon = "*"
serde = { version = "*", features = ["derive"] }
serde_json = "*"
swc_atoms = "*"
swc_common = "*"
swc_ecma_ast = { version = "*", features = ["serde-impl"] }
swc_ecma_parser = "*"
