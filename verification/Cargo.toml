[package]
name = "pdxdoc"
version = "0.1.0"
edition = "2021"
publish = false

[dependencies]
anyhow = "1"
clauser = "*"
colog = "*"
ddsfile = "0.5"
grass = { version = "*", default-features = false }
handlebars = "=6.4.4"
handlebars_misc_helpers = { version = "*", default-features = false }
html-minifier = "*"
image = { version = "0.25", default-features = false, features = ["png"] }
image_dds = { version = "=0.7.2", default-features = false, features = ["ddsfile", "image"] }
itertools = "*"
log = "0.4"
once_cell = "1"
pathdiff = "=0.2.3"
rand = "*"
regex = "=1.13.1"
serde = { version = "1", features = ["derive"] }
serde_json = "1"
wax = "*"
