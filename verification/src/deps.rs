//! The calls this library makes into chrono, nipper, twilight-model and
//! twilight-util. Their contracts restate what those crates do; they are
//! taken on trust, not proved.

use vstd::prelude::*;
use crate::commands::overlays::is_page_selector;
use crate::embed::{EmbedSpec, embed_within_limits};
use crate::text::views;
use twilight_model::channel::message::embed::{Embed, EmbedField, EmbedFooter};
use twilight_util::builder::embed::EmbedBuilder;

verus! {

/// The Unix time, in whole seconds, of an RFC 3339 date-time, or `None` when
/// chrono's `DateTime::parse_from_rfc3339` rejects the text.
pub uninterp spec fn rfc3339_unix_seconds(text: Seq<char>) -> Option<i64>;

/// The Unix times that twilight-model's `Timestamp::from_secs` accepts: from
/// -9999-01-01T00:00:00Z to 9999-12-31T23:59:59Z, the range of the `time`
/// crate's dates when its `large-dates` feature is off, as it is here.
pub open spec fn discord_timestamp_accepts(secs: i64) -> bool {
    -377705116800 <= secs <= 253402300799
}

/// Calls chrono's `DateTime::parse_from_rfc3339` on `text` and, on success,
/// `DateTime::timestamp`. The contract says only that the result depends on
/// the text alone; which texts chrono accepts is left unsaid.
#[verifier::external_body]
pub(crate) fn rfc3339_seconds(text: &str) -> (r: Option<i64>)
    ensures
        r == rfc3339_unix_seconds(text@),
{
    match chrono::DateTime::parse_from_rfc3339(text) {
        Ok(dt) => Some(dt.timestamp()),
        Err(_) => None,
    }
}

/// Calls twilight-model's `Timestamp::from_secs` and reports whether it
/// succeeds: exactly for the times in `discord_timestamp_accepts`.
#[verifier::external_body]
pub(crate) fn timestamp_accepts(secs: i64) -> (r: bool)
    ensures
        r == discord_timestamp_accepts(secs),
{
    twilight_model::util::Timestamp::from_secs(secs).is_ok()
}

/// Builds twilight-model's `Embed` from `e` and calls twilight-util's
/// `EmbedBuilder::validate` on it. The contract states the checks of
/// `twilight_validate::embed::embed`, which `validate` runs: they read the
/// title, description, fields, footer and colour, not the timestamp or url.
#[verifier::external_body]
pub(crate) fn embed_validates(e: &EmbedSpec) -> (r: bool)
    ensures
        r == embed_within_limits(e),
{
    let fields = e.fields.iter().map(|f| EmbedField { inline: f.inline, name: f.name.clone(), value: f.value.clone() }).collect();
    let footer = Some(EmbedFooter { icon_url: None, proxy_icon_url: None, text: e.footer.clone() });
    let embed = Embed { author: None, color: Some(e.color), description: e.description.clone(), fields, footer, image: None, kind: "rich".to_owned(), provider: None, thumbnail: None, timestamp: None, title: Some(e.title.clone()), url: Some(e.url.clone()), video: None };
    EmbedBuilder::from(embed).validate().is_ok()
}

/// The texts of the elements of the HTML document `html` that the CSS
/// selector `selector` matches, in document order.
pub uninterp spec fn selected_texts(html: Seq<char>, selector: Seq<char>) -> Seq<Seq<char>>;

/// Parses `html` with nipper's `Document::from`, selects with `Document::nip`
/// and takes the text of each match. nipper panics on a selector it cannot
/// parse, so only the selectors of the overlay pages are admitted. The
/// contract says only that the texts depend on the document and the selector
/// alone.
#[verifier::external_body]
pub(crate) fn select_texts(html: &str, selector: &str) -> (r: Vec<String>)
    requires
        is_page_selector(selector@),
    ensures
        views(r@) == selected_texts(html@, selector@),
{
    let document = nipper::Document::from(html);
    let selection = document.nip(selector);
    selection.iter().map(|element| element.text().to_string()).collect()
}

} // verus!
