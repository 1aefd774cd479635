//! Verified core of an always-listening dictation daemon: word-level
//! agreement between transcription passes, sentence boundary detection,
//! the voice-activity state machine and the daemon's decisions.
use vstd::prelude::*;

pub mod text;
pub mod agreement;
pub mod sentence;
pub mod config;
pub mod vad;
pub mod audio;
pub mod injector;
pub mod transcript;
pub mod daemon;
pub mod ipc;

verus! {

} // verus!
