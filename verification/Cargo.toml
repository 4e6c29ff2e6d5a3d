[package]
name = "midi_player"
version = "0.1.0"
edition = "2021"
publish = false

[dependencies]
midly = { version = "0.5", default-features = false, features = ["std"] }
wasm-bindgen = "0.2"
wasm-bindgen-futures = "0.4"
js-sys = "0.3"
web-sys = { version = "0.3", features = ["AudioContext", "BaseAudioContext", "AudioNode", "AudioParam", "AudioDestinationNode", "AudioScheduledSourceNode", "BiquadFilterNode", "BiquadFilterType", "GainNode", "OscillatorNode", "OscillatorType", "DynamicsCompressorNode", "CanvasRenderingContext2d", "Blob", "File"] }
