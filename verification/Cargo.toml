[package]
name = "oopsie_macros"
version = "0.1.0"
edition = "2021"
publish = false

[dependencies]
unicode-ident = "=1.0.27"
convert_case = "=0.12.0"
syn = { version = "=3.0.9", features = ["full", "visit", "extra-traits", "parsing", "printing"] }
quote = "=1.0.47"
proc-macro2 = "=1.0.107"
darling = "=0.24.1"
derive-syn-parse = "=0.2.0"
toml_edit = { version = "=0.25.17", features = ["serde"] }
serde = { version = "=1.0.229", features = ["derive"] }
glob = "=0.3.4"
