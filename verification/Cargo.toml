[package]
name = "true-cyber"
version = "0.5.0"
edition = "2021"
publish = false

[dependencies]
cyber-hemera = "=0.3.1"
cybergraph = "=0.1.1"
foculus = "=0.1.2"
ureq = "=2.12.1"
