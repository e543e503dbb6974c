[package]
name = "stgv"
version = "0.1.0"
edition = "2021"
publish = false

[dependencies]
anyhow = "1"
atty = "0.2"
compression = "0.1"
image = "0.24"
itertools-num = "0.1"
pretty-bytes = "0.2"
rand = "0.8"
rand_pcg = "0.3"
rand_seeder = "0.2"
structopt = "0.3"
tabled = "0.8"
thiserror = "1"
