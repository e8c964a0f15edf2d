//! Options the bot starts with.

use vstd::prelude::*;

verus! {

/// Start-up options, read from the bot's Dhall configuration.
#[derive(Clone, Debug)]
pub struct IOptions {
    /// The Discord bot token.
    pub discord: String,
}

} // verus!
