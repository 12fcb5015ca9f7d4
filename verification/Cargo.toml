[package]
name = "trmnl_cyberpunk"
version = "0.1.0"
edition = "2021"
publish = false

[dependencies]
anyhow = "1"
axum = "0.8"
chrono = "0.4"
chrono-tz = "0.10"
embedded-graphics = "0.8"
futures = "0.3"
png = "0.17"
reqwest = { version = "0.12", default-features = false, features = ["json", "rustls-tls"] }
rrule = "0.14"
serde = { version = "1", features = ["derive"] }
serde_json = "1"
tokio = { version = "1", features = ["full"] }
tracing = "0.1"
tracing-subscriber = { version = "0.3", features = ["env-filter"] }
trmnl = "*"
u8g2-fonts = { version = "0.5", features = ["embedded_graphics_textstyle"] }
