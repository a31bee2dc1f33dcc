[package]
name = "pdf_speech"
version = "0.1.0"
edition = "2021"
publish = false

[dependencies]
regex = "1"
serde = { version = "1", features = ["derive"] }
serde-wasm-bindgen = "0.6"
wasm-bindgen = "0.2"
wasm-bindgen-futures = "0.4"
web-sys = { version = "0.3", features = ["Window", "Document", "Element", "File", "FileList", "HtmlInputElement", "Event", "EventTarget", "SpeechSynthesis", "SpeechSynthesisUtterance", "SpeechSynthesisVoice"] }
console_error_panic_hook = "0.1"
leptos = { version = "0.8", features = ["csr"] }
