[package]
name = "browser_agent"
version = "0.1.0"
edition = "2021"
publish = false

[dependencies]
anyhow = "=1.0.104"
async-openai = "=0.10.3"
chromiumoxide = { version = "=0.5.7", default-features = false, features = ["tokio-runtime", "_fetcher-native-tokio", "bytes"] }
clap = { version = "=4.6.7", features = ["derive"] }
dotenv = "=0.15.0"
tokio = { version = "=1.53.2", features = ["macros", "rt-multi-thread", "time"] }
tokio-stream = "=0.1.19"
tracing = "=0.1.44"
tracing-subscriber = { version = "=0.3.23", features = ["env-filter"] }
url = "=2.5.8"
