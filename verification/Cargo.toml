[package]
name = "widths"
version = "0.1.0"
edition = "2021"
publish = false

[dependencies]
rstar = "*"
geo = "*"
geojson = "*"
serde = { version = "*", features = ["derive"] }
serde_json = "*"
anyhow = "*"
cavalier_contours = "*"
petgraph = "*"
union-find-rs = "*"
