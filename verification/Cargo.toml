[package]
name = "vcf2parquet"
version = "0.1.0"
edition = "2021"
publish = false

[dependencies]
arrow = { version = "*", default-features = false }
parquet = { version = "*", default-features = false, features = ["arrow", "snap"] }
flate2 = "1"
serde_json = "1"
clap = { version = "4", features = ["derive"] }
thiserror = "*"
tokio = { version = "1", features = ["time"] }
