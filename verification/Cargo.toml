[package]
name = "day_planner"
version = "0.1.0"
edition = "2021"
publish = false

[dependencies]
serde = { version = "=1.0.229", features = ["derive"] }
serde_json = "=1.0.154"
log = "=0.4.34"
num-derive = "=0.4.2"
num-traits = "=0.2.19"
xous = "=0.9.71"
xous-api-names = "=0.9.72"
xous-api-log = "=0.1.70"
xous-api-ticktimer = "=0.9.71"
