[package]
name = "t_wrapper_rust"
version = "0.1.0"
edition = "2021"
publish = false

[dependencies]
anyhow = "*"
glob = "*"
rayon = "*"
swc_common = "*"
swc_ecma_ast = "*"
swc_ecma_codegen = "*"
swc_ecma_parser = "*"
