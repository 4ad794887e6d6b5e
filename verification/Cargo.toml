[package]
name = "crabase"
version = "0.1.0"
edition = "2021"
publish = false

[dependencies]
chrono = "=0.4.45"
serde = { version = "=1.0.229", features = ["derive"] }
serde_yaml = "=0.9.34"
serde_json = "=1.0.154"
thiserror = "=2.0.21"
walkdir = "=2.5.0"
toon-format = "=0.3.5"
polars = { version = "=0.46.0", features = ["lazy", "strings", "temporal", "dtype-date", "dtype-datetime", "dtype-duration", "list_eval", "concat_str", "replace", "round_series", "abs", "is_in", "list_any_all", "offset_by", "string_reverse", "regex", "list_gather"] }
