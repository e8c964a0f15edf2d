//! Command logic of the Twilight Discord bot: parsing of chat commands,
//! replies, bug-tracker embeds and overlay search results.

pub mod commands;
pub mod deps;
pub mod embed;
pub mod handler;
pub mod number;
pub mod text;
pub mod types;
