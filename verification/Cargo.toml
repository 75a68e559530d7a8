[package]
name = "rad_reward"
version = "0.1.0"
edition = "2021"
publish = false

[dependencies]
hex = "0.4"
zbase32 = "0.1"
ethers = { version = "2.0", default-features = false, features = ["ledger"] }
git2 = { version = "0.18", default-features = false }
serde = { version = "1", features = ["derive"] }
serde_json = "1"
anyhow = "1"
thiserror = "1"
tokio = { version = "1", features = ["rt-multi-thread", "macros"] }
coins-bip32 = "0.8"
colored = "2"
console = "0.15"
dialoguer = "0.11"
log = "0.4"
rpassword = "5"
lexopt = "0.3"
