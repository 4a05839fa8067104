[package]
name = "stats_melee"
version = "0.1.0"
edition = "2021"
publish = false

[dependencies]
anyhow = "1"
diesel = { version = "2", default-features = false, features = ["sqlite", "returning_clauses_for_sqlite_3_35"] }
directories = "5"
dotenvy = "0.15"
egui = { version = "0.29", default-features = false, features = ["default_fonts"] }
egui_extras = { version = "0.29", default-features = false }
image = { version = "0.25", default-features = false, features = ["png"] }
peppi = "2"
serde = { version = "1", features = ["derive"] }
serde_json = "1"
soccer = "*"
toml = "0.8"
