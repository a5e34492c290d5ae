//! The pure parts of the user interface: bar/beat grid, row models, key and
//! note classification, text measuring and formatting.

pub mod bars;
pub mod file_browser;
pub mod fkey_bar;
pub mod header;
pub mod input;
pub mod midi_monitor;
pub mod piano_roll;
pub mod text;
pub mod track_list;
pub mod theme;
pub mod transport;
