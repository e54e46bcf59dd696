[package]
name = "web_player"
version = "0.1.0"
edition = "2021"
publish = false

[dependencies]
bytes = "1"
matroska-demuxer = "*"
mp4 = "*"
serde = { version = "1", features = ["derive"] }
serde-wasm-bindgen = "*"
thiserror = "*"
console_error_panic_hook = "*"
wasm-bindgen = "*"
wasm-bindgen-futures = "*"
js-sys = "*"
web-sys = { version = "*", features = [
    "AudioBuffer",
    "AudioBufferSourceNode",
    "AudioContext",
    "AudioContextState",
    "AudioData",
    "AudioDataCopyToOptions",
    "AudioDecoder",
    "AudioDecoderConfig",
    "AudioDecoderInit",
    "AudioDestinationNode",
    "AudioNode",
    "AudioParam",
    "AudioSampleFormat",
    "BaseAudioContext",
    "CanvasRenderingContext2d",
    "CodecState",
    "EncodedAudioChunk",
    "EncodedAudioChunkInit",
    "EncodedAudioChunkType",
    "EncodedVideoChunk",
    "EncodedVideoChunkInit",
    "EncodedVideoChunkType",
    "GainNode",
    "Headers",
    "HtmlCanvasElement",
    "Performance",
    "ReadableStream",
    "ReadableStreamDefaultReader",
    "Request",
    "RequestInit",
    "RequestMode",
    "Response",
    "VideoDecoder",
    "VideoDecoderConfig",
    "VideoDecoderInit",
    "VideoFrame",
    "Window",
    "console",
] }

[dev-dependencies]
serde_json = "1"
