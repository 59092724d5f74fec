[package]
name = "canvas_editor"
version = "0.1.0"
edition = "2021"
publish = false

[dependencies]
unicode-segmentation = "*"
unicode-width = "*"
anyhow = "1"
log = "0.4"
console_error_panic_hook = "0.1"
console_log = "1"
ratatui = { version = "*", default-features = false }
ratatui-wgpu = "*"
wasm-bindgen = "0.2"
wasm-bindgen-futures = "0.4"
web-sys = { version = "0.3", features = ["CssStyleDeclaration", "Document", "DomRect", "Element", "HtmlCanvasElement", "HtmlElement", "HtmlTextAreaElement", "Node", "Window"] }
wgpu = { version = "*", default-features = false }
winit = "*"
