[package]
name = "medic"
version = "1.3.0"
edition = "2021"
publish = false

[dependencies]
sha1_smol = "1"
zxcvbn = "2"
csv = "1"
keepass = "0.6"
reqwest = { version = "0.11", features = ["blocking"] }
rpassword = "7"
indicatif = "0.17"
clap = { version = "4", features = ["derive"] }
