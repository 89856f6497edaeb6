[package]
name = "cumulos"
version = "0.1.0"
edition = "2021"
publish = false

[dependencies]
csv = "1"
delaunator = "0.2"
geo = "0.28"
kdtree = "0.7"
libm = "0.2"
ordered-float = "4"
rayon = "1"
