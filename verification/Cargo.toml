[package]
name = "runtime_info"
version = "0.1.0"
edition = "2021"
publish = false

[dependencies]
parity-scale-codec = "*"
polkadot-primitives = "*"
schnellru = "*"
sp-application-crypto = "*"
sp-core = "*"
sp-keystore = "*"
tracing-gum = "*"
