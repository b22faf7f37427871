[package]
name = "kebab"
version = "0.1.0"
edition = "2021"
publish = false

[dependencies]
blake3 = "*"
serde_json_canonicalizer = "*"
serde_json = "*"
serde = { version = "*", features = ["derive"] }
serde_yaml = "*"
toml = "*"
toml_edit = "*"
lindera = "*"
dirs = "*"
ctrlc = "*"
anyhow = "*"
thiserror = "*"
time = { version = "*", features = ["formatting", "parsing"] }
indicatif = "*"
