[package]
name = "attestation"
version = "0.1.0"
edition = "2021"
publish = false

[dependencies]
der = { version = "=0.7.10", features = ["alloc", "derive", "oid"] }
pkix = "=0.2.6"
sgx-isa = "=0.6.0"
sgx_pkix = "=0.3.2"
mbedtls = "=0.13.6"
iocuddle = "=0.1.1"
log = "=0.4.35"
env_logger = "=0.11.11"
thiserror = "=2.0.21"
vsock = "=0.5.5"
hyper = "=0.10.16"
