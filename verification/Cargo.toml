[package]
name = "melodeus_aec"
version = "0.1.0"
edition = "2021"
publish = false

[dependencies]
console_error_panic_hook = "=0.1.7"
js-sys = "=0.3.106"
thiserror = "=2.0.21"
wasm-bindgen = "=0.2.129"
wasm-bindgen-futures = "=0.4.79"
web-sys = { version = "=0.3.106", features = ["AudioContext", "AudioContextState", "AudioDestinationNode", "AudioNode", "AudioWorklet", "AudioWorkletNode", "BaseAudioContext", "Blob", "BlobPropertyBag", "MediaDeviceInfo", "MediaDeviceKind", "MediaDevices", "MediaStream", "MediaStreamAudioSourceNode", "MediaStreamConstraints", "MediaStreamTrack", "MessageEvent", "MessagePort", "Navigator", "Performance", "Url", "Window", "Worklet", "console"] }
