[package]
name = "dbdump"
version = "0.3.1"
edition = "2021"
publish = false

[dependencies]
regex = "1"
sqlx = { version = "0.8", default-features = false, features = ["runtime-async-std", "mysql", "chrono", "bigdecimal"] }
async-std = { version = "1", features = ["attributes"] }
clap = { version = "4", features = ["derive"] }
url = "2"
num_cpus = "1"
