[package]
name = "signal_pipeline"
version = "0.1.0"
edition = "2021"
publish = false

[dependencies]
clap = { version = "*", features = ["derive"] }
serde = { version = "*", features = ["derive"] }
serde_json = "*"
throbber = "*"
nalgebra = "*"
plotters = "*"
itertools = "*"
nearly = "*"
good_lp = { version = "*", default-features = false, features = ["clarabel"] }
statrs = "*"
