[package]
name = "user_storage"
version = "0.1.0"
edition = "2021"
publish = false

[dependencies]
serde = { version = "=1.0.229", features = ["derive"] }
serde_json = "=1.0.151"
thiserror = "=2.0.21"
base64 = "=0.13.1"
envy = "=0.4.2"
serde_qs = { version = "=1.1.3", features = ["warp"] }
warp = { version = "=0.4.3", features = ["server"] }
tokio = { version = "=1.53.2", features = ["full"] }
async-trait = "=0.1.92"
bb8-redis = "=0.26.0"
deadpool-diesel = { version = "=0.7.0", features = ["postgres"] }
diesel = { version = "=2.3.14", features = ["postgres", "serde_json"] }
