[package]
name = "modloader"
version = "0.1.0"
edition = "2021"
publish = false

[dependencies]
data-url = "*"
deno_ast = { version = "*", features = ["transpiling"] }
reqwest = { version = "*", default-features = false, features = ["blocking", "rustls-tls"] }
