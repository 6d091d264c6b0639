[package]
name = "healer_fuzzer"
version = "0.1.0"
edition = "2021"
publish = false

[dependencies]
chrono = "*"
num_cpus = "*"
exitcode = "*"
log = "*"
log4rs = "*"
lettre_email = "*"
port_check = "*"
rayon-core = "*"
serde = { version = "*", features = ["derive"] }
serde_json = "*"
signal-hook = "*"
structopt = "*"
toml = "*"
