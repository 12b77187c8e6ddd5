//! The decision logic of a real-time noise suppressor: control values and their history, the
//! sample queues between a host and its worker, latency adaptation, audio stream selection,
//! spectrogram images and seeded random numbers.

pub mod engine;
pub mod single;
pub mod text;
pub mod plugin;
pub mod capture;
pub mod util;
pub mod view;
pub mod wasm;
