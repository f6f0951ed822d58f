//! Audio capture logic of a real-time speech translator: reading the PCM
//! that recorders print, folding stereo to mono, mixing system audio with
//! the microphone, batching audio for the frontend, and choosing the
//! PipeWire/PulseAudio source to record from what `pactl` reports.
use vstd::prelude::*;

pub mod capture;
pub mod commands;
pub mod forward;
pub mod mixer;
pub mod pactl;
pub mod pcm;
pub mod target;
pub mod text;

verus! {

/// Sample rate of the audio handed to the speech engine (PCM s16le, mono).
pub const TARGET_SAMPLE_RATE: u32 = 16000;

/// Channel count of the audio handed to the speech engine.
pub const TARGET_CHANNELS: u16 = 1;

} // verus!
