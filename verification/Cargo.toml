[package]
name = "iiif_core"
version = "0.1.0"
edition = "2021"
publish = false

[dependencies]
png = "=0.18.1"
jpeg-encoder = "=0.7.1"
tiff = "=0.11.3"
gif = "=0.14.2"
image-webp = "=0.2.4"
zune-jpeg = "=0.5.15"
fast_image_resize = "=6.1.0"
serde = { version = "=1.0.229", features = ["derive"] }
serde_json = "=1.0.154"
bytes = "=1.12.1"
tokio = { version = "=1.54.1", features = ["rt-multi-thread", "net", "macros", "sync", "time", "signal", "io-util"] }
hyper = { version = "=1.12.0", features = ["server", "http1"] }
hyper-util = { version = "=0.1.21", features = ["tokio"] }
http-body-util = "=0.1.5"
num-traits = "=0.2.19"
object_store = { version = "=0.14.2", features = ["aws"] }
rustls = { version = "=0.23.46", default-features = false, features = ["ring", "std"] }
tracing = "=0.1.44"
tracing-subscriber = { version = "=0.3.23", features = ["env-filter"] }
