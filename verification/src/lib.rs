//! Core of a peer-to-peer voice conferencing client.
//!
//! The crate covers the session lifecycle of a two-peer voice call: the
//! signaling state machine with deterministic role election, the wire format
//! of the signaling messages, the capture path (channel mix-down, framing,
//! voice-activity detection with discontinuous transmission, Opus encoding)
//! and the playback path (Opus decoding, jitter buffering, resampling).
//! Device handling, sockets and the WebRTC transport live outside; they feed
//! events and sample blocks into the functions here and carry out the actions
//! these functions decide on.
//!
//! Audio samples are carried as fixed-point amplitudes in millionths of full
//! scale, so that the 48 kHz pipeline and its thresholds are exact integers.

pub mod capture;
pub mod controller;
pub mod guild;
pub mod identity;
pub mod jitter;
pub mod laws;
pub mod models;
pub mod state;
pub mod text;
pub mod wire;
pub mod vad;
