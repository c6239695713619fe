[package]
name = "mock_otel_collector"
version = "0.1.0"
edition = "2021"
publish = false

[dependencies]
actix-web = "=4.18.1"
actix-web-prom = "=0.6.0"
anyhow = "=1.0.104"
futures-util = "=0.3.34"
itertools = "=0.10.5"
nonempty = "=0.12.0"
opentelemetry = { version = "=0.15.0", features = ["rt-tokio"] }
opentelemetry-jaeger = { version = "=0.14.0", features = ["collector_client"] }
rctree = "=0.6.0"
reqwest = { version = "=0.11.27", default-features = false, features = ["json"] }
reqwest-middleware = "=0.1.6"
reqwest-tracing = "=0.2.3"
serde = { version = "=1.0.229", features = ["derive"] }
tracing = "=0.1.44"
tracing-actix-web = "=0.5.1"
tracing-opentelemetry = "=0.14.0"
tracing-subscriber = "=0.2.25"

[dev-dependencies]
thrift = "=0.25.0"
