[package]
name = "mad_libs"
version = "0.1.0"
edition = "2021"
publish = false
