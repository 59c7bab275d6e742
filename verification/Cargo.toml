[package]
name = "calendar_display"
version = "0.1.0"
edition = "2021"
publish = false

[dependencies]
jiff = "=0.2.39"
fluent-uri = "=0.4.1"
embedded-graphics = "=0.8.2"
profont = "=0.7.0"
weact-studio-epd = "=0.1.3"
heapless = { version = "=0.9.3", features = ["serde"] }
serde = { version = "=1.0.229", features = ["derive"] }
thiserror = "=2.0.21"
icu = "=2.4.0"
icu_datetime = "=2.4.0"
picoserve = { version = "=0.20.1", features = ["tokio", "json"] }
tokio = { version = "=1.54.1", features = ["rt", "net", "macros"] }
