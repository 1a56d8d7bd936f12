[package]
name = "plmidi"
version = "0.1.0"
edition = "2021"
publish = false

[dependencies]
clap = { version = "=3.2.25", features = ["cargo", "env"] }
cpal = "=0.15.3"
crossterm = { version = "=0.26.1", features = ["event-stream"] }
fluidlite = "=0.2.1"
futures = "=0.3.34"
log = "=0.4.34"
nodi = { version = "=1.0.3", features = ["hybrid-sleep"] }
parking_lot = "=0.12.5"
rand = "=0.8.8"
simple_logger = "=4.3.3"
wild = "=2.2.1"
