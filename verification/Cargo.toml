[package]
name = "campground"
version = "0.1.0"
edition = "2021"
publish = false

[dependencies]
chrono = "0.4"
dotenvy = "0.15"
serde = { version = "1", features = ["derive"] }
serde_derive = "1"
serde_json = "1"
sqlx = { version = "0.8", default-features = false, features = ["runtime-tokio", "postgres", "chrono"] }
thiserror = "1"
tokio = { version = "1", features = ["rt-multi-thread", "macros"] }
warp = { version = "0.3", default-features = false }
