//! Plain data that the bot reads: its options and the bug tracker's answers.

pub mod common;
pub mod gentoo;
