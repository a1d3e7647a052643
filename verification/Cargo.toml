[package]
name = "polyplot"
version = "0.1.0"
edition = "2021"
publish = false

[dependencies]
wasm-bindgen = "=0.2.92"
web-sys = { version = "=0.3.69", features = ["HtmlCanvasElement", "HtmlElement"] }
plotters = { version = "=0.3.7", default-features = false, features = ["line_series"] }
plotters-canvas = "=0.3.1"
console_error_panic_hook = "=0.1.7"
wee_alloc = "=0.4.5"
