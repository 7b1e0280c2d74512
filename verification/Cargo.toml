[package]
name = "asynckit"
version = "0.1.0"
edition = "2021"
publish = false

[dependencies]
parking_lot = "=0.12.5"
futures = "=0.3.34"
async-weighted-semaphore = "=0.2.1"
backtrace = "0.3"
