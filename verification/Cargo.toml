[package]
name = "analyzer"
version = "0.1.0"
edition = "2021"
publish = false

[dependencies]
anyhow = "=1.0.104"
cancel = "=0.1.0"
conv = "=0.3.3"
crossbeam-channel = "=0.5.17"
crossbeam-utils = "=0.8.23"
log = "=0.4.34"
minimp3 = "=0.6.1"
rubato = "=0.8.1"
thiserror = "=1.0.69"
ureq = "=2.12.1"
wav = "=1.0.1"
