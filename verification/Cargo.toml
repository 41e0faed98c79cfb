[package]
name = "quasar_svm"
version = "0.1.0"
edition = "2021"
publish = false

[dependencies]
solana-pubkey = { version = "=3.0.0", features = ["curve25519"] }
solana-account = "=3.4.0"
solana-instruction = "=3.5.1"
solana-instruction-error = "=2.5.0"
solana-rent = "=3.1.0"
solana-clock = "=3.2.1"
solana-hash = "=3.1.0"
solana-sdk-ids = "=3.1.0"
solana-epoch-schedule = "=3.4.0"
solana-epoch-rewards = "=3.2.0"
solana-slot-hashes = "=3.2.0"
solana-sysvar = "=3.1.1"
solana-stake-interface = "=2.0.2"
solana-instructions-sysvar = "=3.0.1"
solana-loader-v3-interface = { version = "=6.1.1", features = ["serde"] }
solana-program-pack = "=3.1.0"
spl-token = "=9.0.0"
bincode = "=1.3.3"
solana-message = "=3.1.0"
solana-transaction-context = "=3.1.14"
solana-compute-budget = "=3.1.14"
solana-program-runtime = "=3.1.14"
solana-bpf-loader-program = "=3.1.14"
solana-system-program = "=3.1.14"
agave-syscalls = "=3.1.14"
agave-feature-set = "=3.1.14"
solana-svm-callback = "=3.1.14"
solana-svm-log-collector = "=3.1.14"
solana-svm-timings = "=3.1.14"
solana-svm-transaction = "=3.1.14"
