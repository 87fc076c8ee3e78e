[package]
name = "json_tree_viewer"
version = "0.1.0"
edition = "2021"
publish = false

[dependencies]
serde_json = { version = "=1.0.151", features = ["preserve_order"] }
yew = { version = "=0.21.0", features = ["csr"] }
yew-hooks = "=0.3.4"
gloo = "=0.11.0"
js-sys = "=0.3.106"
web-sys = { version = "=0.3.106", features = ["Window", "Document", "Element", "HtmlElement", "File", "FileList", "Blob", "DragEvent", "DataTransfer", "Event", "EventTarget", "HtmlInputElement", "MediaQueryList", "KeyboardEvent"] }
