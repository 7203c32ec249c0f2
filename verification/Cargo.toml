[package]
name = "mdbook_scientific"
version = "0.1.0"
edition = "2021"
publish = false

[dependencies]
sha2 = "=0.11.0"
mdbook = { version = "=0.4.52", default-features = false }
fs-err = "=3.3.2"
nom-bibtex = "=0.6.0"
pulldown-cmark = "=0.13.4"
pulldown-cmark-to-cmark = "=23.0.0"
which = "=8.0.6"
