[package]
name = "async_resource"
version = "0.1.0"
edition = "2021"
publish = false

[dependencies]
async-executor = "*"
async-global-executor = "*"
concurrent-queue = "*"
event-listener = "*"
futures-lite = "*"
futures-util = "*"
multitask = "*"
num_cpus = "*"
suspend = "*"

[dev-dependencies]
futures-executor = "*"
