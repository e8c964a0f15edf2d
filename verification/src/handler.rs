//! Which command a chat message asks for.

use vstd::prelude::*;
use crate::text::{chars_of, next_token, range_equals, tokens};

verus! {

/// The bot's commands.
#[derive(Clone, Copy, Debug, PartialEq, Eq, Structural)]
pub enum Command {
    Help,
    Bug,
    Wiki,
    Overlays,
    Register,
    Show,
    List,
    Delete,
}

/// The command that the word `w` names.
pub open spec fn command_named(w: Seq<char>) -> Option<Command> {
    if w == "-help"@ {
        Some(Command::Help)
    } else if w == "-bug"@ {
        Some(Command::Bug)
    } else if w == "-wiki"@ {
        Some(Command::Wiki)
    } else if w == "-overlays"@ {
        Some(Command::Overlays)
    } else if w == "-register"@ {
        Some(Command::Register)
    } else if w == "-show"@ {
        Some(Command::Show)
    } else if w == "-list"@ {
        Some(Command::List)
    } else if w == "-delete"@ {
        Some(Command::Delete)
    } else {
        None
    }
}

/// The command a message asks for: only messages sent in a server, or that
/// start with `-`, are read; their first word must name a command.
pub open spec fn command_of(in_guild: bool, content: Seq<char>) -> Option<Command> {
    if in_guild || (content.len() > 0 && content[0] == '-') {
        let words = tokens(content);
        if words.len() == 0 {
            None
        } else {
            command_named(words[0])
        }
    } else {
        None
    }
}

/// Whether `cs[a..b]` is the word `w`.
fn word_is(cs: &Vec<char>, a: usize, b: usize, w: &str) -> (r: bool)
    requires
        a <= b <= cs.len(),
    ensures
        r == (cs@.subrange(a as int, b as int) == w@),
{
    let ws = chars_of(w);
    range_equals(cs, a, b, &ws)
}

/// The command a message asks for (see `command_of`); `in_guild` tells
/// whether it was sent in a server.
pub fn handle_event(in_guild: bool, content: &str) -> (r: Option<Command>)
    ensures
        r == command_of(in_guild, content@),
{
    let cs = chars_of(content);
    if !(in_guild || (cs.len() > 0 && cs[0] == '-')) {
        return None;
    }
    assert(cs@.skip(0) =~= cs@);
    match next_token(&cs, 0) {
        None => None,
        Some((a, b)) => {
            assert(tokens(content@)[0] == cs@.subrange(a as int, b as int));
            if word_is(&cs, a, b, "-help") {
                Some(Command::Help)
            } else if word_is(&cs, a, b, "-bug") {
                Some(Command::Bug)
            } else if word_is(&cs, a, b, "-wiki") {
                Some(Command::Wiki)
            } else if word_is(&cs, a, b, "-overlays") {
                Some(Command::Overlays)
            } else if word_is(&cs, a, b, "-register") {
                Some(Command::Register)
            } else if word_is(&cs, a, b, "-show") {
                Some(Command::Show)
            } else if word_is(&cs, a, b, "-list") {
                Some(Command::List)
            } else if word_is(&cs, a, b, "-delete") {
                Some(Command::Delete)
            } else {
                None
            }
        },
    }
}

/// A message sent outside a server that does not start with `-` never asks
/// for a command, whatever it says.
pub proof fn law_private_messages_need_dash(content: Seq<char>)
    requires
        content.len() == 0 || content[0] != '-',
    ensures
        command_of(false, content) is None,
{
}

/// A message asks for a command exactly when its first word names one: the
/// rest of the message plays no part.
pub proof fn law_first_word_decides(in_guild: bool, a: Seq<char>, b: Seq<char>)
    requires
        tokens(a).len() > 0,
        tokens(b).len() > 0,
        tokens(a)[0] == tokens(b)[0],
        a[0] == b[0],
    ensures
        command_of(in_guild, a) == command_of(in_guild, b),
{
}

/// The answer to `-help`.
pub open spec fn help_text() -> Seq<char> {
    "I can handle -bug <num> command, and maybe -overlays <search>, and -wiki <search>"@
}

/// The answer to `-help`.
pub fn help() -> (r: String)
    ensures
        r@ == help_text(),
{
    String::from_str(
        "I can handle -bug <num> command, and maybe -overlays <search>, and -wiki <search>",
    )
}

} // verus!
