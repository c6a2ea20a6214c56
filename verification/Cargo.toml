[package]
name = "quickload"
version = "0.1.0"
edition = "2021"
publish = false

[dependencies]
anyhow = "=1.0.104"
hyper = { version = "=0.14.32", features = ["client", "http1", "http2", "tcp", "stream"] }
tokio = { version = "=1.54.1", features = ["rt-multi-thread", "macros", "sync", "time", "signal"] }
tokio-util = "=0.7.20"
futures-util = "=0.3.34"
thiserror = "=1.0.69"
tracing = "=0.1.44"
abort-on-drop = "=0.2.2"
async-trait = "=0.1.92"
positioned-io = "=0.3.5"
positioned-io-preview = "=0.3.5"
nix = "=0.26.4"
serde = { version = "=1.0.229", features = ["derive"] }
hex = { version = "=0.4.3", features = ["serde"] }
digest = "=0.10.7"
winapi = { version = "=0.3.9", features = ["minwindef", "ntdef", "fileapi", "handleapi", "processthreadsapi", "securitybaseapi", "winbase", "winnt"] }
