[package]
name = "libspl"
version = "0.1.0"
edition = "2021"
publish = false

[dependencies]
tokio = { version = "1", features = ["full"] }
openssh = { version = "*", features = ["native-mux"] }
ouroboros = "*"
trait-variant = "*"

[dev-dependencies]
rand = "0.8"
