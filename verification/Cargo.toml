[package]
name = "portfolio"
version = "0.1.0"
edition = "2021"
publish = false

[dependencies]
aes = "0.8"
anyhow = "1"
clap = "2"
log = "0.4"
once_cell = "1"
reqwest = { version = "0.11", features = ["blocking", "json"] }
serde = { version = "1", features = ["derive"] }
serde_json = "1"
sha3 = "0.10"
wasm-bindgen = "0.2"
wasm-logger = "0.2"
web-sys = { version = "0.3", features = ["Document", "DomParser", "Element", "Event", "EventTarget", "HtmlElement", "MouseEvent", "Node", "SupportedType", "SvgsvgElement", "Window"] }
wee_alloc = "0.4"
yew = "0.18"
yew-router = "0.15"
yewtil = "0.4"

[dev-dependencies]
regex = "1"
