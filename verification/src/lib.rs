//! Verified core of the ump MIDI player: Standard MIDI File decoding, SysEx
//! interpretation, mode detection, bar/beat mapping, sequencing decisions,
//! synthesizer routing, shared playback state and the pure parts of the
//! user interface (row models, key/note classification, text formatting).

pub mod config;
pub mod debug;
pub mod midi;
pub mod player;
pub mod sequencer;
pub mod state;
pub mod synth;
pub mod ui;
pub mod util;
