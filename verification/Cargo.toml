[package]
name = "movie_catalog"
version = "0.1.0"
edition = "2021"
publish = false

[dependencies]
actix-cors = "*"
actix-web = "*"
async-trait = "*"
sea-orm = { version = "*", features = ["sqlx-sqlite", "runtime-tokio-rustls", "macros"] }
sea-orm-migration = { version = "*", features = ["sqlx-sqlite", "runtime-tokio-rustls"] }
serde = { version = "*", features = ["derive"] }
utoipa = { version = "*", features = ["actix_extras"] }
