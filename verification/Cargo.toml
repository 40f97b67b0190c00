[package]
name = "pcm_decoder"
version = "0.1.0"
edition = "2021"
publish = false

[dependencies]
anyhow = "*"
once_cell = "*"
rubato = "*"
symphonia = "*"
