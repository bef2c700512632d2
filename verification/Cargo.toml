[package]
name = "housing_dashboard"
version = "0.1.0"
edition = "2021"
publish = false

[dependencies]
rand = "0.8"
chrono = "0.4"
serde = { version = "1", features = ["derive"] }
serde_json = "1"
axum = { version = "0.7", features = ["macros"] }
tokio = { version = "1", features = ["macros", "rt", "net"] }
reqwest = { version = "0.12", default-features = false, features = ["json"] }
tower-http = { version = "0.5", features = ["fs"] }
askama = "0.12"
dotenv = "0.15"
once_cell = "1"
