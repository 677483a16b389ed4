[package]
name = "crawler"
version = "0.1.0"
edition = "2021"
publish = false

[dependencies]
rayon = "=1.12.0"
reqwest = { version = "=0.12.28", features = ["blocking"] }
select = "=0.6.1"
