[package]
name = "aggregator"
version = "0.1.0"
edition = "2021"
publish = false

[dependencies]
scc = "2"
tracing = "0.1"
thiserror = "1"
async-trait = "0.1"
