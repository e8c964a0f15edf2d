//! `-show <key>`: shows the note stored under a key.

use vstd::prelude::*;
use crate::text::{argument, argument_of};

verus! {

/// The key of a `-show` command.
pub open spec fn show_key(content: Seq<char>) -> Seq<char> {
    argument_of(content, "-show"@)
}

/// Reply when no key is given.
pub open spec fn missing_show_key_text() -> Seq<char> {
    "You need to provide something to show"@
}

/// What a `-show` command does.
#[derive(Debug)]
pub enum ShowStep {
    /// Answer with this text and stop.
    Reply(String),
    /// Read the note under this key and answer with it.
    Read(String),
}

/// `-show`: the key is the first word longer than one byte other than
/// `-show`; without one the command only complains.
pub fn show(content: &str) -> (s: ShowStep)
    ensures
        show_key(content@).len() == 0 ==> (s matches ShowStep::Reply(t) && t@
            == missing_show_key_text()),
        show_key(content@).len() > 0 ==> (s matches ShowStep::Read(k) && k@ == show_key(
            content@,
        )),
{
    let key = argument(content, "-show");
    if key.as_str().is_empty() {
        ShowStep::Reply(String::from_str("You need to provide something to show"))
    } else {
        ShowStep::Read(key)
    }
}

} // verus!
