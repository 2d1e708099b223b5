[package]
name = "watchlist"
version = "0.1.0"
edition = "2021"
publish = false

[dependencies]
bcrypt = "=0.19.3"
uuid = { version = "=1.27.0", features = ["v4", "serde"] }
serde = { version = "=1.0.229", features = ["derive"] }
actix-web = { version = "=4.15.0", default-features = false, features = ["macros", "cookies"] }
actix-session = { version = "=0.11.0", features = ["cookie-session"] }
actix-identity = "=0.9.0"
actix-cors = "=0.7.2"
sqlx = { version = "=0.9.0", default-features = false, features = ["runtime-tokio", "postgres", "bigdecimal", "uuid"] }
bigdecimal = { version = "=0.4.11", features = ["serde"] }
dotenv = "=0.15.0"
log = "=0.4.34"
