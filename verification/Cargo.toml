[package]
name = "materialize"
version = "0.1.0"
edition = "2021"
publish = false

[dependencies]
anyhow = "1.0"
bytes = "1.3"
bytesize = "1.1"
differential-dataflow = "0.12"
fallible-iterator = "0.2"
futures = "0.3"
md-5 = "0.10"
postgres-protocol = "0.6"
prost = "0.11"
regex = "1.7"
serde_json = "1.0"
timely = "0.12"
tokio = { version = "1.24", features = ["full"] }
tokio-postgres = "0.7"
uuid = "1.2"
