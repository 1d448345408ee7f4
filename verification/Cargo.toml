[package]
name = "maidsafe_nfs"
version = "0.1.0"
edition = "2021"
publish = false

[dependencies]
maidsafe_client = "=0.1.2"
routing = "=0.4.1"
self_encryption = "=0.36.2"
sodiumoxide = "=0.2.7"
time = "=0.1.45"
