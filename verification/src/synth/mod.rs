//! SoundFont bundles and the routing of ports and channels to synthesizer
//! engines, and the data bytes of channel messages.

pub mod bundle;
pub mod routing;
pub mod message;
pub mod dispatch;
