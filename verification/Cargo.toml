[package]
name = "erc20_monitor"
version = "0.1.0"
edition = "2021"
publish = false

[dependencies]
dotenv = "0.15"
tokio = { version = "1", features = ["macros", "rt-multi-thread"] }
web3 = { version = "0.19", default-features = false, features = ["ws-tokio"] }
