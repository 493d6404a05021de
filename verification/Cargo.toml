[package]
name = "bracket_results"
version = "0.1.0"
edition = "2021"
publish = false

[dependencies]
chrono = "0.4"
select = "0.4"
reqwest = "0.9"
