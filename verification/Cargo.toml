[package]
name = "dotevery_editor"
version = "0.1.0"
edition = "2021"
publish = false

[dependencies]
uuid = { version = "0.8", features = ["v4", "serde"] }
bimap = "0.5"
either = "1"
serde = { version = "1", features = ["derive"] }
enum-iterator = "0.6"
yew = "0.17"
wasm-bindgen = "0.2"
js-sys = "0.3"
web-sys = { version = "0.3", features = ["Window", "Document", "Element", "HtmlInputElement", "HtmlSelectElement", "DomRect", "MouseEvent", "NodeList", "Node", "EventTarget", "console"] }
wee_alloc = "0.4"
