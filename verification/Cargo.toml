[package]
name = "sqlsim"
version = "0.1.0"
edition = "2021"
publish = false

[dependencies]
anarchist-readable-name-generator-lib = "=0.2.2"
rand = "=0.9.5"
rand_chacha = "=0.9.0"
limbo_core = "=0.0.22"
log = "=0.4.34"
env_logger = "=0.11.11"
tempfile = "=3.27.0"
