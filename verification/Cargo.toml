[package]
name = "gpio_api"
version = "0.1.0"
edition = "2021"
publish = false

[dependencies]
gpio-cdev = "=0.6.0"
serde = { version = "*", features = ["derive"] }
tokio = { version = "*", features = ["macros", "rt-multi-thread"] }
toml = "*"
warp = { version = "=0.4.3", features = ["server"] }
