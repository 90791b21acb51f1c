[package]
name = "centroid_solver"
version = "0.1.0"
edition = "2021"
publish = false

[dependencies]
termcolor = "*"
indoc = "*"
