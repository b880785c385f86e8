[package]
name = "drc20"
version = "0.1.0"
edition = "2021"
publish = false

[dependencies]
dusk-core = { version = "=1.7.0", features = ["serde"] }
dusk-data-driver = "=1.7.0"
# The contract macro; it expands to wasm exports, which the host here does not build.
dusk-forge = "=0.3.0"
rkyv = { version = "=0.7.46", features = ["validation"] }
bytecheck = "=0.6.12"
serde = { version = "=1.0.229", features = ["derive"] }
# Not used directly: these three hold dusk-core's dependencies at versions
# that build with rustc 1.95 (their newer releases need rustc 1.96.1).
dusk-bytes = "=0.1.7"
jubjub-schnorr = "=0.7.0-rc.0"
derive-hex = "=0.1.2"

[dev-dependencies]
rand = "=0.8.8"
