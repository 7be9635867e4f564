[package]
name = "game_of_life"
version = "0.1.0"
edition = "2021"
publish = false

[dependencies]
rand = "0.8"
yew = "0.19"
gloo-render = "0.1"
gloo-timers = "0.2"
js-sys = "0.3"
log = "0.4"
wasm-bindgen = "0.2"
wasm-logger = "0.2"
web-sys = { version = "0.3", features = ["HtmlCanvasElement", "WebGlRenderingContext", "WebGlBuffer", "WebGlShader", "WebGlProgram", "WebGlUniformLocation", "Window", "console"] }
wee_alloc = "0.4"
