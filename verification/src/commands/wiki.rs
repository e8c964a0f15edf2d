//! `-wiki`: not served here yet; points to the bot that serves it.

use vstd::prelude::*;

verus! {

/// The answer to `-wiki`.
pub open spec fn wiki_text() -> Seq<char> {
    "Not yet implemented here! Will do later, use ~wiki and Amadeus will respond"@
}

/// `-wiki`: always answers that the command is served elsewhere.
pub fn wiki() -> (r: String)
    ensures
        r@ == wiki_text(),
{
    String::from_str("Not yet implemented here! Will do later, use ~wiki and Amadeus will respond")
}

} // verus!
