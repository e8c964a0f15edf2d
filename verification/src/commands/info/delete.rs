//! `-delete <key>`: deletes the note stored under a key.

use vstd::prelude::*;
use crate::text::{argument, argument_of};

verus! {

/// The key of a `-delete` command: the first word longer than one byte other
/// than `-delete`, or the empty text.
pub open spec fn delete_key(content: Seq<char>) -> Seq<char> {
    argument_of(content, "-delete"@)
}

/// Reply once a note is deleted.
pub open spec fn deleted_text(key: Seq<char>) -> Seq<char> {
    "Deleted "@ + key
}

/// `-delete`: the key whose note to delete. The command does not check that
/// a key is given: without one it deletes under the empty key.
pub fn delete(content: &str) -> (key: String)
    ensures
        key@ == delete_key(content@),
{
    argument(content, "-delete")
}

/// Reply once the note under `key` is deleted.
pub fn deleted_reply(key: &str) -> (r: String)
    ensures
        r@ == deleted_text(key@),
{
    String::from_str("Deleted ").concat(key)
}

} // verus!
