[package]
name = "xtce_flight"
version = "0.1.0"
edition = "2021"
publish = false

[dependencies]
clap = { version = "4", features = ["derive"] }
prettyplease = "0.2"
proc-macro2 = "1"
syn = { version = "2", features = ["full", "parsing", "printing"] }
thiserror = "2"
