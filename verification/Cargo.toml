[package]
name = "sei-nova"
version = "0.1.0"
edition = "2021"
publish = false

[dependencies]
chrono = "0.4"
serde = { version = "1", features = ["derive"] }
serde_json = "1"
reqwest = { version = "0.12", features = ["json"] }
tokio = { version = "1", features = ["full"] }
sqlx = { version = "0.8", default-features = false, features = ["runtime-tokio", "postgres", "json", "chrono", "derive"] }
actix-web = { version = "4", default-features = false, features = ["macros", "openssl"] }
actix-cors = "0.7"
dotenv = "0.15"
anyhow = "1"
base64 = "0.22"
serde_yaml = "0.9"
websocket = { version = "0.27", default-features = false, features = ["sync"] }
futures-util = "0.3"
openssl = "0.10"
