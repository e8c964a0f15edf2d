//! Message embeds as plain values, and the limits that Discord places on them.

use vstd::prelude::*;
use crate::text::utf8_len;

verus! {

/// One name/value field of an embed.
#[derive(Clone, Debug)]
pub struct EmbedField {
    pub name: String,
    pub value: String,
    pub inline: bool,
}

/// A rich embed with a title linking to `url`, a colour, an optional
/// description, fields, a footer and an optional Unix timestamp in seconds.
#[derive(Clone, Debug)]
pub struct EmbedSpec {
    pub title: String,
    pub url: String,
    pub color: u32,
    pub description: Option<String>,
    pub fields: Vec<EmbedField>,
    pub footer: String,
    pub timestamp: Option<i64>,
}

/// The colour of every embed the bot sends.
pub const EMBED_COLOR: u32 = 0xfd69b3;

/// Footer text that names who asked.
pub open spec fn requested_by(author: Seq<char>) -> Seq<char> {
    "Requested by "@ + author
}

/// Footer text that names who asked.
pub fn requested_by_text(author: &str) -> (r: String)
    ensures
        r@ == requested_by(author@),
{
    String::from_str("Requested by ").concat(author)
}

/// Bytes that the names and values of `fs` take together.
pub open spec fn fields_bytes(fs: Seq<EmbedField>) -> nat
    decreases fs.len(),
{
    if fs.len() == 0 {
        0
    } else {
        fields_bytes(fs.drop_last()) + utf8_len(fs.last().name@) + utf8_len(fs.last().value@)
    }
}

/// Bytes of the text of an embed: title, description, fields and footer.
pub open spec fn embed_bytes(e: &EmbedSpec) -> nat {
    let description = match e.description {
        Some(d) => utf8_len(d@),
        None => 0,
    };
    utf8_len(e.title@) + description + fields_bytes(e.fields@) + utf8_len(e.footer@)
}

/// Discord's limits on an embed: at most 6000 bytes of text, an RGB colour,
/// a description of at most 4096 characters, at most 25 fields with names of
/// at most 256 and values of at most 1024 characters, a footer of at most 2048
/// and a title of at most 256 characters.
pub open spec fn embed_within_limits(e: &EmbedSpec) -> bool {
    &&& embed_bytes(e) <= 6000
    &&& e.color <= 0xffffff
    &&& (e.description matches Some(d) ==> d@.len() <= 4096)
    &&& e.fields@.len() <= 25
    &&& forall|i: int|
        0 <= i < e.fields@.len() ==> (#[trigger] e.fields@[i]).name@.len() <= 256
            && e.fields@[i].value@.len() <= 1024
    &&& e.footer@.len() <= 2048
    &&& e.title@.len() <= 256
}

} // verus!
