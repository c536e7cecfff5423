[package]
name = "dnsmdcd"
version = "0.1.0"
edition = "2021"
publish = false

[dependencies]
actix-web = { version = "*", default-features = false, features = ["macros"] }
daemonize = "*"
nix = { version = "*", features = ["user"] }
serde = { version = "*", features = ["derive"] }
