[package]
name = "recipe_server"
version = "0.1.0"
edition = "2021"
publish = false

[dependencies]
askama = "=0.16.1"
axum = "=0.8.9"
clap = { version = "=4.6.7", features = ["derive"] }
gloo-net = "=0.7.0"
http = "=1.5.0"
log = "=0.4.34"
mime = "=0.3.17"
serde = { version = "=1.0.229", features = ["derive"] }
serde_json = "=1.0.154"
sqlx = { version = "=0.9.0", default-features = false, features = ["runtime-tokio", "sqlite", "migrate"] }
thiserror = "=2.0.21"
tokio = { version = "=1.54.1", features = ["full"] }
tokio-stream = "=0.1.19"
tower-http = { version = "=0.7.1", features = ["fs", "trace", "cors"] }
tracing = "=0.1.44"
tracing-subscriber = { version = "=0.3.23", features = ["env-filter"] }
utoipa = { version = "=6.0.0", features = ["axum_extras"] }
utoipa-axum = "=0.3.0"
utoipa-redoc = { version = "=7.0.0", features = ["axum"] }
utoipa-swagger-ui = { version = "=10.0.2", features = ["axum", "vendored"] }
wasm-bindgen-futures = "=0.4.79"
yew = { version = "=0.23.0", features = ["csr"] }
