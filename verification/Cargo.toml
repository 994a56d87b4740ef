[package]
name = "arq"
version = "0.1.0"
edition = "2021"
publish = false

[dependencies]
uuid = { version = "=1.29.1", features = ["v4"] }
rand = "=0.9.5"
rand_pcg = "=0.9.0"
rand_seeder = "=0.4.0"
termion = "=4.0.6"
serde_json = "=1.0.154"
