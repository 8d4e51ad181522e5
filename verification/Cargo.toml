[package]
name = "marker_site"
version = "0.1.0"
edition = "2021"
publish = false

[dependencies]
anyhow = "=1.0.104"
async-recursion = "=1.2.0"
chrono = { version = "=0.4.45", features = ["serde"] }
handlebars = "=6.4.4"
rayon = "=1.12.0"
remarkable-cloud-api = "=0.1.0"
reqwest = "=0.10.10"
serde = { version = "=1.0.229", features = ["derive"] }
serde_json = "=1.0.154"
structopt = "=0.3.26"
tokio = { version = "=0.2.25", features = ["macros", "rt-threaded"] }
uuid = { version = "=0.8.2", features = ["serde", "v4"] }
zip = "=9.0.5"
