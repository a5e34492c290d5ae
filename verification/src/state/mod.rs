//! Playback state shared between the audio side and the user interface.

pub mod shared;
pub mod sink;
