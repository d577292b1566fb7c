[package]
name = "maze_defence"
version = "0.1.0"
edition = "2021"
publish = false

[dependencies]
yew = { version = "0.21", features = ["csr"] }
wasm-bindgen = "0.2"
js-sys = "0.3"
serde = { version = "1", features = ["derive"] }
serde_json = "1"
web-sys = { version = "0.3", features = ["Window", "Document", "Storage", "console", "Element", "HtmlElement", "HtmlCanvasElement", "CanvasRenderingContext2d", "DomRect", "Event", "EventTarget", "KeyboardEvent", "MouseEvent", "WheelEvent", "TouchEvent", "TouchList", "Touch", "CssStyleDeclaration", "TextMetrics"] }
