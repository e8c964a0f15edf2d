//! The bot's chat commands.

pub mod bug;
pub mod overlays;
pub mod info;
pub mod wiki;
