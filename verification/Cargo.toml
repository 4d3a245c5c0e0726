[package]
name = "rsvelte"
version = "0.1.0"
edition = "2021"
publish = false

[dependencies]
syn = { version = "2", features = ["full", "visit", "visit-mut", "extra-traits", "parsing", "printing"] }
proc-macro2 = "1"
quote = "1"
log = "0.4"
colored = "2"
tempdir = "0.3"
