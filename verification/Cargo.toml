[package]
name = "x11_mcp"
version = "0.3.0"
edition = "2021"
publish = false

[dependencies]
anyhow = "1"
async-trait = "0.1"
atspi = { version = "=0.30.0", features = ["tokio", "proxies", "connection"] }
base64 = "=0.23.1"
clap = { version = "4", features = ["derive", "env"] }
freedesktop-desktop-entry = { version = "=0.8.4", default-features = false }
futures-lite = "=2.6.1"
globset = "=0.4.21"
png = "=0.18.1"
rmcp = { version = "=3.8.0", features = ["server", "macros", "transport-io"] }
schemars = "1"
serde = { version = "1", features = ["derive"] }
serde_json = "1"
thiserror = "2"
tokio = { version = "1", features = ["macros", "rt-multi-thread", "sync", "time", "signal", "process", "io-std"] }
tracing = "0.1"
tracing-subscriber = { version = "0.3", features = ["env-filter"] }
x11rb = { version = "=0.14.0", features = ["xtest", "randr", "damage", "xfixes"] }
xxhash-rust = { version = "=0.8.19", features = ["xxh3"] }
