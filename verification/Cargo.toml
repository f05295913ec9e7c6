[package]
name = "libafl_sandbox"
version = "0.1.0"
edition = "2021"
publish = false

[dependencies]
libafl = "=0.15.4"
libafl_bolts = "=0.15.4"
libafl_targets = { version = "=0.15.4", features = ["sancov_pcguard_hitcounts"] }
pyo3 = "=0.20.3"
