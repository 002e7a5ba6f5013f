[package]
name = "rewards_ledger"
version = "0.1.0"
edition = "2021"
publish = false

[dependencies]
chrono = "=0.4.45"
serde = { version = "=1.0.229", features = ["derive"] }
serde_json = "=1.0.151"
csv = "=1.4.0"
dotenv = "=0.15.0"
reqwest = { version = "=0.11.27", default-features = false, features = ["json"] }
tokio = { version = "=1.53.2", features = ["macros", "rt-multi-thread"] }
async-throttle = "=0.3.2"
ethers = { version = "=2.0.14", default-features = false, features = ["etherscan"] }
