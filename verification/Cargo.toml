[package]
name = "metrics_exporter_prometheus"
version = "0.1.0"
edition = "2021"
publish = false

[dependencies]
prost = "*"
metrics-util = "*"
quanta = "*"
crossbeam-utils = "*"
