[package]
name = "aio_plugin_rbac"
version = "0.1.0"
edition = "2021"
publish = false

[dependencies]
anyhow = "1"
axum = "0.8"
dill = "*"
dioxus = { version = "0.6", default-features = false, features = ["macro", "html", "signals", "hooks"] }
gloo-net = { version = "0.6", default-features = false, features = ["http", "json"] }
serde = { version = "1", features = ["derive"] }
serde_json = "1"
sqlx = { version = "0.8", default-features = false, features = ["postgres", "runtime-tokio"] }
tokio = { version = "1", features = ["macros", "rt-multi-thread"] }
