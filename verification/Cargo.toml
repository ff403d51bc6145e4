[package]
name = "klint"
version = "0.1.0"
edition = "2021"
publish = false

[dependencies]
object = { version = "=0.40.0", features = ["write"] }
gimli = "=0.34.0"
thiserror = "=2.0.21"
