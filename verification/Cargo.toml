[package]
name = "bpf_syscalls"
version = "0.1.0"
edition = "2021"
publish = false

[dependencies]
curve25519-dalek = "=2.1.3"
solana_rbpf = "=0.1.33"
solana-runtime = "=1.5.3"
solana-sdk = "=1.5.3"
thiserror = "=1.0.69"

# Nothing here uses these directly. The lines only hold what solana-runtime and solana-sdk depend
# on to their own version: with another one they do not compile.
solana-frozen-abi = "=1.5.3"
solana-frozen-abi-macro = "=1.5.3"
solana-program = "=1.5.3"
solana-rayon-threadlimit = "=1.5.3"
solana-sdk-macro = "=1.5.3"
