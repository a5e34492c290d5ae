//! MIDI data model, SysEx interpretation and mode detection.

pub mod event;
pub mod sysex;
pub mod mode_detect;
pub mod order;
pub mod smf;
pub mod text;
pub mod parser;
