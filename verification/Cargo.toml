[package]
name = "osu2te"
version = "0.1.0"
edition = "2021"
publish = false

[dependencies]
anyhow = "1"
base64 = "0.13"
console_error_panic_hook = "0.1"
console_log = "*"
image = { version = "0.24", default-features = false, features = ["png", "jpeg"] }
js-sys = "0.3"
log = "0.4"
osuparse = "*"
serde = { version = "1", features = ["derive"] }
serde_derive = "1"
serde_json = "1"
url = "2"
wasm-bindgen = "0.2"
wasm-bindgen-futures = "0.4"
web-sys = { version = "0.3", features = ["Window", "Document", "Element", "HtmlElement", "HtmlInputElement", "HtmlSelectElement", "Request", "RequestInit", "Response", "Blob"] }
zip = { version = "0.6", default-features = false, features = ["deflate"] }
