[package]
name = "quic_streamer"
version = "0.1.0"
edition = "2021"
publish = false

[dependencies]
bytes = "=1.12.1"
crossbeam-channel = "=0.5.17"
futures = "=0.3.34"
indexmap = "=2.14.2"
log = "=0.4.34"
percentage = "=0.1.0"
quinn = "=0.11.12"
quinn-proto = "=0.11.19"
rand = "=0.8.8"
rustls = { version = "=0.23.46", default-features = false, features = ["std"] }
smallvec = "=1.16.4"
solana-keypair = "=3.1.2"
solana-measure = "=3.1.14"
solana-packet = "=3.0.0"
solana-perf = "=3.1.14"
solana-pubkey = "=3.0.0"
solana-quic-definitions = "=3.0.0"
solana-signature = "3"
solana-time-utils = "=3.0.0"
solana-tls-utils = "=3.1.14"
solana-transaction-metrics-tracker = "=3.1.14"
tokio = { version = "=1.54.1", features = ["macros", "rt-multi-thread", "sync", "time"] }
tokio-util = "=0.7.20"
