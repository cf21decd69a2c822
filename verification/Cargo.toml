[package]
name = "packagesbot"
version = "0.1.0"
edition = "2021"
publish = false

[dependencies]
threadpool = "=1.8.1"
url = "=2.5.8"
rustc-serialize = "=0.3.25"
select = "=0.6.1"
log = "=0.4.34"
env_logger = "=0.11.11"
hyper = "=0.10.16"
