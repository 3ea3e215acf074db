[package]
name = "calendar_timeline"
version = "0.1.0"
edition = "2021"
publish = false

[dependencies]
rrule = "=0.14.0"
chrono = "=0.4.45"
chrono-tz = "=0.10.4"
axum = "=0.8.9"
axum-template = { version = "=3.0.0", features = ["handlebars"] }
handlebars = { version = "=6.4.4", features = ["dir_source"] }
minicaldav = "=0.8.0"
ureq = "=2.12.1"
url = "*"
dotenvy = "*"
serde = { version = "*", features = ["derive"] }
serde_json = "*"
tokio = { version = "*", features = ["macros", "rt-multi-thread", "net"] }
tracing-subscriber = "*"
