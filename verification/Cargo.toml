[package]
name = "fathom_sparc"
version = "0.1.0"
edition = "2021"
publish = false

[dependencies]
serde = { version = "=1.0.229", features = ["derive"] }
serde_json = "=1.0.154"
anyhow = "=1.0.104"
clap = { version = "=4.6.7", features = ["derive"] }
tokio = { version = "=1.54.1", features = ["macros", "rt-multi-thread"] }
tracing = "=0.1.44"
tracing-subscriber = { version = "=0.3.23", features = ["env-filter"] }
async-trait = "=0.1.92"
converge-core = "=3.7.6"
converge-kernel = "=3.7.6"
converge-pack = "=3.7.6"
converge-optimization = "=3.7.6"
converge-provider = "=3.7.6"
