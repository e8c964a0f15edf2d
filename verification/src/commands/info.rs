//! Commands over the bot's key/value notes: `-register <key> <text>`,
//! `-show <key>`, `-list` and `-delete <key>`. This module's `register`
//! stores a key even when no text follows it; `register::register` refuses
//! that case with a reply. `show` and `delete` here behave as those of the
//! submodules.

pub mod delete;
pub mod register;
pub mod show;

use vstd::prelude::*;
use crate::commands::info::delete::delete_key;
use crate::commands::info::register::{
    key_end, missing_key_text, register_in_bounds, register_key, register_rest, InfoStep,
};
use crate::commands::info::show::{missing_show_key_text, show_key, ShowStep};

verus! {

/// `-register`, first form: stores the text after the key, even when there is
/// none; complains only when no key is given.
pub fn register(content: &str) -> (s: InfoStep)
    requires
        register_in_bounds(content@),
    ensures
        register_key(content@).len() == 0 ==> (s matches InfoStep::Reply(t) && t@
            == missing_key_text()),
        register_key(content@).len() > 0 ==> (s matches InfoStep::Store { key, text } && key@
            == register_key(content@) && text@ == register_rest(content@)),
{
    let key = crate::text::argument(content, "-register");
    if key.as_str().is_empty() {
        return InfoStep::Reply(String::from_str("You need to provide something to register"));
    }
    let end = key_end(content, key.as_str());
    let text = content.substring_char(end, content.unicode_len()).to_owned();
    assert(text@ =~= content@.skip(end as int));
    InfoStep::Store { key, text }
}

/// `-show`: the same in both forms.
pub fn show(content: &str) -> (s: ShowStep)
    ensures
        show_key(content@).len() == 0 ==> (s matches ShowStep::Reply(t) && t@
            == missing_show_key_text()),
        show_key(content@).len() > 0 ==> (s matches ShowStep::Read(k) && k@ == show_key(
            content@,
        )),
{
    show::show(content)
}

/// `-delete`: the same in both forms.
pub fn delete(content: &str) -> (key: String)
    ensures
        key@ == delete_key(content@),
{
    delete::delete(content)
}

} // verus!
