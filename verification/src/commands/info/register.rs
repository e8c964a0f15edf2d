//! `-register <key> <text>`: stores a note under a key.

use vstd::prelude::*;
use crate::text::{
    argument, argument_of, char_width_of, chars_of, first_argument, is_ws, lemma_pieces_lead_word,
    lemma_skip_bytes_prefix, lemma_utf8_len_bounds, lemma_utf8_len_concat, lemma_utf8_len_take,
    skip_bytes, tokens, utf8_len, Separators,
};

verus! {

/// The key of a `-register` command.
pub open spec fn register_key(content: Seq<char>) -> Seq<char> {
    argument_of(content, "-register"@)
}

/// Byte offset at which the note's text starts: the length of `-register`,
/// of the key and of two separators, counted from the start of the message.
pub open spec fn register_skip(content: Seq<char>) -> int {
    9 + utf8_len(register_key(content)) as int + 2
}

/// The message can be cut at the text's offset: there is no key, or the
/// offset is within the message and on a character boundary. Elsewhere the
/// command panics when it slices the message.
pub open spec fn register_in_bounds(content: Seq<char>) -> bool {
    register_key(content).len() == 0 || skip_bytes(content, register_skip(content)) is Some
}

/// The note's text: the message from the text's offset on.
pub open spec fn register_rest(content: Seq<char>) -> Seq<char> {
    skip_bytes(content, register_skip(content))->0
}

/// Reply when no key is given.
pub open spec fn missing_key_text() -> Seq<char> {
    "You need to provide something to register"@
}

/// Reply when the key has no text after it.
pub open spec fn missing_text_text() -> Seq<char> {
    "You need to provide text for a key after it"@
}

/// Reply once a note is stored.
pub open spec fn registered_text(key: Seq<char>) -> Seq<char> {
    "Registered "@ + key
}

/// What a `-register` command does.
#[derive(Debug)]
pub enum InfoStep {
    /// Answer with this text and stop.
    Reply(String),
    /// Store `text` under `key`.
    Store { key: String, text: String },
}

/// Character index in `content` at which `11 + (bytes of key)` bytes end,
/// or `None` when that offset is past the end or inside a character.
pub fn rest_start(content: &str, key: &str) -> (r: Option<usize>)
    ensures
        match r {
            Some(k) => k <= content@.len() && skip_bytes(content@, 11 + utf8_len(key@) as int) == Some(
                content@.skip(k as int),
            ),
            None => skip_bytes(content@, 11 + utf8_len(key@) as int) is None,
        },
{
    let cs = chars_of(content);
    let ks = chars_of(key);
    let n = cs.len();
    let kn = ks.len();
    let ghost total: int = 11 + utf8_len(key@) as int;
    let mut i: usize = 0;
    let mut j: usize = 0;
    let mut pending: usize = 11;
    assert(cs@.skip(0) =~= cs@);
    assert(cs@.take(0) =~= Seq::<char>::empty());
    assert(ks@.take(0) =~= Seq::<char>::empty());
    loop
        invariant
            i <= n,
            j <= kn,
            n == cs.len(),
            kn == ks.len(),
            cs@ == content@,
            ks@ == key@,
            total == 11 + utf8_len(key@) as int,
            pending <= 15,
            11 + utf8_len(ks@.take(j as int)) == utf8_len(cs@.take(i as int)) + pending,
            skip_bytes(cs@, total) == skip_bytes(cs@.skip(i as int), total - utf8_len(
                cs@.take(i as int),
            )),
        decreases (n - i) + (kn - j),
    {
        proof {
            assert(ks@ =~= ks@.take(j as int) + ks@.skip(j as int));
            lemma_utf8_len_concat(ks@.take(j as int), ks@.skip(j as int));
        }
        if j < kn && pending < 4 {
            proof {
                lemma_utf8_len_take(ks@, j as int);
            }
            pending = pending + char_width_of(ks[j]);
            j = j + 1;
        } else if pending == 0 {
            assert(ks@.take(j as int) =~= ks@);
            return Some(i);
        } else if i == n {
            return None;
        } else {
            let w = char_width_of(cs[i]);
            let ghost t = cs@.skip(i as int);
            assert(t[0] == cs@[i as int]);
            if w > pending {
                assert(ks@.take(j as int) =~= ks@);
                return None;
            }
            proof {
                lemma_utf8_len_take(cs@, i as int);
                assert(t.drop_first() =~= cs@.skip(i + 1));
            }
            pending = pending - w;
            i = i + 1;
        }
    }
}

/// Whether the message of a `-register` command can be cut at the text's
/// offset (see `register_in_bounds`).
pub fn register_can_cut(content: &str) -> (r: bool)
    ensures
        r == register_in_bounds(content@),
{
    let key = argument(content, "-register");
    if key.as_str().is_empty() {
        return true;
    }
    rest_start(content, key.as_str()).is_some()
}

/// Character index at which the note's text starts.
pub fn key_end(content: &str, key: &str) -> (k: usize)
    requires
        key@ == register_key(content@),
        register_in_bounds(content@),
        key@.len() > 0,
    ensures
        k <= content@.len(),
        content@.skip(k as int) == register_rest(content@),
{
    match rest_start(content, key) {
        Some(k) => k,
        None => {
            assert(false);
            0
        },
    }
}

/// `-register`: the key is the first word longer than one byte other than
/// `-register`; the text is the message from byte `11 + (bytes of key)` on.
/// Without a key, or with an empty text, the command only complains.
pub fn register(content: &str) -> (s: InfoStep)
    requires
        register_in_bounds(content@),
    ensures
        register_key(content@).len() == 0 ==> (s matches InfoStep::Reply(t) && t@
            == missing_key_text()),
        register_key(content@).len() > 0 && register_rest(content@).len() == 0 ==> (s matches InfoStep::Reply(t) && t@
            == missing_text_text()),
        register_key(content@).len() > 0 && register_rest(content@).len() > 0 ==> (
        s matches InfoStep::Store { key, text } && key@ == register_key(content@) && text@
            == register_rest(content@)),
{
    let key = argument(content, "-register");
    if key.as_str().is_empty() {
        return InfoStep::Reply(String::from_str("You need to provide something to register"));
    }
    let end = key_end(content, key.as_str());
    let rest = content.substring_char(end, content.unicode_len());
    assert(rest@ =~= content@.skip(end as int));
    if rest.is_empty() {
        return InfoStep::Reply(String::from_str("You need to provide text for a key after it"));
    }
    InfoStep::Store { key, text: rest.to_owned() }
}

/// Reply once a note is stored under `key`.
pub fn registered_reply(key: &str) -> (r: String)
    ensures
        r@ == registered_text(key@),
{
    String::from_str("Registered ").concat(key)
}

/// A message `-register <key> <text>` (single spaces) stores `text` under
/// `key`, for any key of more than one byte without whitespace (other than
/// `-register` itself) and any text.
pub proof fn law_register_stores_text_after_key(key: Seq<char>, text: Seq<char>)
    requires
        key.len() > 0,
        forall|k: int| 0 <= k < key.len() ==> !is_ws(#[trigger] key[k]),
        utf8_len(key) > 1,
        key != "-register"@,
    ensures
        register_key("-register"@ + seq![' '] + key + seq![' '] + text) == key,
        register_in_bounds("-register"@ + seq![' '] + key + seq![' '] + text),
        register_rest("-register"@ + seq![' '] + key + seq![' '] + text) == text,
{
    reveal_strlit("-register");
    let cmd = "-register"@;
    let sp = seq![' '];
    let content = cmd + sp + key + sp + text;
    let ws = Separators::Whitespace;
    assert forall|k: int| 0 <= k < cmd.len() implies !crate::text::is_separator(
        ws,
        #[trigger] cmd[k],
    ) by {}
    assert forall|k: int| 0 <= k < key.len() implies !crate::text::is_separator(
        ws,
        #[trigger] key[k],
    ) by {}
    lemma_pieces_lead_word(key, ' ', text, ws);
    assert(content =~= cmd + sp + (key + sp + text));
    lemma_pieces_lead_word(cmd, ' ', key + sp + text, ws);
    let toks = tokens(content);
    assert(toks =~= seq![cmd, key] + tokens(text));
    assert(toks[0] == cmd);
    assert(toks.drop_first()[0] == key);
    assert(first_argument(toks, cmd) == first_argument(toks.drop_first(), cmd));
    let prefix = cmd + sp + key + sp;
    assert(content =~= prefix + text);
    lemma_skip_bytes_prefix(prefix, text);
    lemma_utf8_len_concat(cmd + sp + key, sp);
    lemma_utf8_len_concat(cmd + sp, key);
    lemma_utf8_len_concat(cmd, sp);
    lemma_utf8_len_bounds(sp);
    assert(utf8_len(cmd) == 9) by {
        reveal_with_fuel(utf8_len, 10);
    }
}

} // verus!
