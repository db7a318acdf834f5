[package]
name = "dcm_anon"
version = "0.1.0"
edition = "2021"
publish = false

[dependencies]
anyhow = "1"
crossbeam = "0.8"
dicom = "*"
rayon = "1"
