[package]
name = "wty"
version = "0.1.0"
edition = "2021"
publish = false

[dependencies]
regex = "1"
unicode-normalization = "0.1"
chrono = "0.4"
anyhow = "1"
clap = { version = "4", features = ["derive"] }
serde = { version = "1", features = ["derive"] }
serde_json = "1"
indexmap = "2"
fxhash = "0.2"
flate2 = "1"
ureq = "3"
zip = "*"
walkdir = "2"
tracing = "0.1"
tracing-subscriber = { version = "0.3", features = ["env-filter", "chrono"] }
maud = "*"
pangloss = "*"
rayon = "1"
rkyv = "*"
rusqlite = { version = "*", features = ["bundled"] }
