[package]
name = "spoon"
version = "0.1.0"
edition = "2021"
publish = false

[dependencies]
unidecode = "=0.3.0"
pulldown-cmark = { version = "=0.9.6", default-features = false }
yew = { version = "=0.20.0", features = ["csr"] }
yew-router = "=0.17.0"
yew-hooks = "=0.2.0"
chrono = "=0.4.45"
futures = "=0.3.34"
serde = { version = "=1.0.229", features = ["derive"] }
wasm-bindgen = "=0.2.129"
wasm-bindgen-futures = "=0.4.79"
web-sys = { version = "=0.3.106", features = ["HtmlInputElement", "Window", "Document", "EventTarget"] }
