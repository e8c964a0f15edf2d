//! `-bug <number>`: looks a bug up on Gentoo's Bugzilla and shows it as an embed.

use vstd::prelude::*;
use crate::deps::{
    discord_timestamp_accepts, embed_validates, rfc3339_seconds, rfc3339_unix_seconds,
    timestamp_accepts,
};
use crate::embed::{
    embed_within_limits, requested_by, requested_by_text, EmbedField, EmbedSpec, EMBED_COLOR,
};
use crate::number::{decimal, decimal_spec, parse_i32, parse_i32_spec};
use crate::text::{chars_of, next_token, tokens};
use crate::types::gentoo::{Bug, Bugs};

verus! {

/// The first word of `toks` that parses as an `i32`.
pub open spec fn first_number(toks: Seq<Seq<char>>) -> Option<i32>
    decreases toks.len(),
{
    if toks.len() == 0 {
        None
    } else if parse_i32_spec(toks[0]) is Some {
        parse_i32_spec(toks[0])
    } else {
        first_number(toks.drop_first())
    }
}

/// The bug number a command asks for: `number` when given, else the first
/// word of the message that parses as an `i32`, else -1.
pub open spec fn bug_number_of(content: Seq<char>, number: Option<i32>) -> i32 {
    match number {
        Some(n) => n,
        None => match first_number(tokens(content)) {
            Some(n) => n,
            None => -1i32,
        },
    }
}

/// Reply to a command that names no usable bug number.
pub open spec fn missing_number_text() -> Seq<char> {
    "You need to provide bug number to search for"@
}

/// Bugzilla's REST address for bug `n`.
pub open spec fn bug_api_url(n: nat) -> Seq<char> {
    "https://bugs.gentoo.org/rest/bug?id="@ + decimal_spec(n)
}

/// Bugzilla's web page for bug `n`.
pub open spec fn bug_page_url(n: nat) -> Seq<char> {
    "https://bugs.gentoo.org/"@ + decimal_spec(n)
}

/// Reply when Bugzilla knows no bug `n`.
pub open spec fn not_found_text(n: nat) -> Seq<char> {
    "Can't find bug "@ + decimal_spec(n)
}

/// What the first step of `-bug` does.
#[derive(Debug)]
pub enum BugStep {
    /// Answer with this text and stop.
    Reply(String),
    /// Ask Bugzilla for bug `number` at `url`.
    Fetch { number: i32, url: String },
}

/// What `-bug` answers once Bugzilla has replied.
#[derive(Debug)]
pub enum BugReply {
    /// Send this embed.
    Embed(EmbedSpec),
    /// Discord's limits refuse this embed: the command fails without a reply.
    Invalid(EmbedSpec),
    /// Answer with this text.
    Text(String),
}

/// The bug number a command asks for (see `bug_number_of`).
pub fn bug_number(content: &str, number: Option<i32>) -> (n: i32)
    ensures
        n == bug_number_of(content@, number),
{
    match number {
        Some(n) => n,
        None => {
            let cs = chars_of(content);
            let mut pos: usize = 0;
            assert(cs@.skip(0) =~= cs@);
            loop
                invariant
                    pos <= cs.len(),
                    cs@ == content@,
                    number is None,
                    first_number(tokens(content@)) == first_number(tokens(cs@.skip(pos as int))),
                decreases cs.len() - pos,
            {
                match next_token(&cs, pos) {
                    None => {
                        return -1;
                    },
                    Some((a, b)) => {
                        let ghost toks = tokens(cs@.skip(pos as int));
                        assert(toks[0] == cs@.subrange(a as int, b as int));
                        assert(toks.drop_first() =~= tokens(cs@.skip(b as int)));
                        match parse_i32(&cs, a, b) {
                            Some(v) => {
                                return v;
                            },
                            None => {},
                        }
                        pos = b;
                    },
                }
            }
        },
    }
}

/// First step of `-bug`: the bug number to fetch, or the complaint that
/// there is none (a negative number counts as none).
pub fn bug(content: &str, number: Option<i32>) -> (s: BugStep)
    ensures
        bug_number_of(content@, number) < 0 ==> (s matches BugStep::Reply(t) && t@
            == missing_number_text()),
        bug_number_of(content@, number) >= 0 ==> (s matches BugStep::Fetch { number: n, url }
            && n == bug_number_of(content@, number) && url@ == bug_api_url(n as nat)),
{
    let n = bug_number(content, number);
    if n < 0 {
        BugStep::Reply(String::from_str("You need to provide bug number to search for"))
    } else {
        let url = String::from_str("https://bugs.gentoo.org/rest/bug?id=").concat(
            decimal(n as u64).as_str(),
        );
        BugStep::Fetch { number: n, url }
    }
}

/// The view of embed fields as (name, value, inline) triples.
pub open spec fn field_views(fs: Seq<EmbedField>) -> Seq<(Seq<char>, Seq<char>, bool)> {
    fs.map_values(|f: EmbedField| (f.name@, f.value@, f.inline))
}

/// An inline field `name: value`, present only when `value` is not empty.
pub open spec fn optional_field(name: Seq<char>, value: Seq<char>) -> Seq<
    (Seq<char>, Seq<char>, bool),
> {
    if value.len() == 0 {
        Seq::empty()
    } else {
        seq![(name, value, true)]
    }
}

/// The fields of a bug's embed: assignee, creator, priority, severity,
/// product, resolution and status, in that order, each only when known.
pub open spec fn bug_fields(b: &Bug) -> Seq<(Seq<char>, Seq<char>, bool)> {
    optional_field("assigned"@, b.assigned_to@) + optional_field("creator"@, b.creator@)
        + optional_field("priority"@, b.priority@) + optional_field("severity"@, b.severity@)
        + optional_field("product"@, b.product@) + optional_field("resolution"@, b.resolution@)
        + optional_field("status"@, b.status@)
}

/// The embed timestamp of a bug: its creation time, when that is given,
/// parses as RFC 3339 and is a time Discord's timestamps can hold.
pub open spec fn bug_timestamp(creation_time: Seq<char>) -> Option<i64> {
    if creation_time.len() == 0 {
        None
    } else {
        match rfc3339_unix_seconds(creation_time) {
            Some(secs) => if discord_timestamp_accepts(secs) {
                Some(secs)
            } else {
                None
            },
            None => None,
        }
    }
}

/// `e` is the embed that shows bug `b` (number `n`) to `author`.
pub open spec fn is_bug_embed(e: &EmbedSpec, b: &Bug, n: nat, author: Seq<char>) -> bool {
    &&& e.title@ == b.summary@
    &&& e.url@ == bug_page_url(n)
    &&& e.color == EMBED_COLOR
    &&& e.description is None
    &&& field_views(e.fields@) == bug_fields(b)
    &&& e.footer@ == requested_by(author)
    &&& e.timestamp == bug_timestamp(b.creation_time@)
}

fn push_optional_field(fields: &mut Vec<EmbedField>, name: &str, value: &String)
    ensures
        field_views(final(fields)@) == field_views(old(fields)@) + optional_field(name@, value@),
{
    if value.as_str().is_empty() {
        assert(field_views(fields@) =~= field_views(fields@) + optional_field(name@, value@));
    } else {
        let ghost before = fields@;
        fields.push(EmbedField { name: String::from_str(name), value: value.clone(), inline: true });
        assert(field_views(fields@) =~= field_views(before) + optional_field(name@, value@));
    }
}

/// The embed timestamp of a bug created at `creation_time` (see
/// `bug_timestamp`).
pub fn creation_timestamp(creation_time: &str) -> (r: Option<i64>)
    ensures
        r == bug_timestamp(creation_time@),
{
    if creation_time.is_empty() {
        return None;
    }
    match rfc3339_seconds(creation_time) {
        Some(secs) => if timestamp_accepts(secs) {
            Some(secs)
        } else {
            None
        },
        None => None,
    }
}

/// The embed that shows bug `b` (number `number`) to `author`, stamped with
/// `timestamp`.
pub fn bug_embed_at(b: &Bug, number: i32, author: &str, timestamp: Option<i64>) -> (e: EmbedSpec)
    requires
        number >= 0,
    ensures
        e.title@ == b.summary@,
        e.url@ == bug_page_url(number as nat),
        e.color == EMBED_COLOR,
        e.description is None,
        field_views(e.fields@) == bug_fields(b),
        e.footer@ == requested_by(author@),
        e.timestamp == timestamp,
{
    let mut fields: Vec<EmbedField> = Vec::new();
    assert(field_views(fields@) =~= Seq::empty());
    push_optional_field(&mut fields, "assigned", &b.assigned_to);
    push_optional_field(&mut fields, "creator", &b.creator);
    push_optional_field(&mut fields, "priority", &b.priority);
    push_optional_field(&mut fields, "severity", &b.severity);
    push_optional_field(&mut fields, "product", &b.product);
    push_optional_field(&mut fields, "resolution", &b.resolution);
    push_optional_field(&mut fields, "status", &b.status);
    EmbedSpec {
        title: b.summary.clone(),
        url: String::from_str("https://bugs.gentoo.org/").concat(decimal(number as u64).as_str()),
        color: EMBED_COLOR,
        description: None,
        fields,
        footer: requested_by_text(author),
        timestamp,
    }
}

/// The embed that shows bug `b` (number `number`) to `author`.
pub fn bug_embed(b: &Bug, number: i32, author: &str) -> (e: EmbedSpec)
    requires
        number >= 0,
    ensures
        is_bug_embed(&e, b, number as nat, author@),
{
    let timestamp = creation_timestamp(b.creation_time.as_str());
    bug_embed_at(b, number, author, timestamp)
}

/// What `-bug` answers once Bugzilla has listed `bugs` for bug `number`:
/// an embed of the first bug when there is one (refused when it breaks
/// Discord's limits), else a text saying the bug is not found.
pub fn bug_reply(bugs: &Bugs, number: i32, author: &str) -> (r: BugReply)
    requires
        number >= 0,
    ensures
        bugs.bugs@.len() == 0 ==> (r matches BugReply::Text(t) && t@ == not_found_text(
            number as nat,
        )),
        bugs.bugs@.len() > 0 ==> match r {
            BugReply::Embed(e) => is_bug_embed(&e, &bugs.bugs@[0], number as nat, author@)
                && embed_within_limits(&e),
            BugReply::Invalid(e) => is_bug_embed(&e, &bugs.bugs@[0], number as nat, author@)
                && !embed_within_limits(&e),
            BugReply::Text(_) => false,
        },
{
    if bugs.bugs.len() == 0 {
        BugReply::Text(String::from_str("Can't find bug ").concat(decimal(number as u64).as_str()))
    } else {
        let e = bug_embed(&bugs.bugs[0], number, author);
        if embed_validates(&e) {
            BugReply::Embed(e)
        } else {
            BugReply::Invalid(e)
        }
    }
}

/// Place of a field name in the order `assigned`, `creator`, `priority`,
/// `severity`, `product`, `resolution`, `status`; 7 for any other name.
pub open spec fn field_rank(name: Seq<char>) -> int {
    if name == "assigned"@ {
        0
    } else if name == "creator"@ {
        1
    } else if name == "priority"@ {
        2
    } else if name == "severity"@ {
        3
    } else if name == "product"@ {
        4
    } else if name == "resolution"@ {
        5
    } else if name == "status"@ {
        6
    } else {
        7
    }
}

/// The field is inline, not empty, and carries the value of the bug
/// attribute it is named after.
pub open spec fn carries_own_value(b: &Bug, f: (Seq<char>, Seq<char>, bool)) -> bool {
    &&& f.2
    &&& f.1.len() > 0
    &&& {
        ||| f.0 == "assigned"@ && f.1 == b.assigned_to@
        ||| f.0 == "creator"@ && f.1 == b.creator@
        ||| f.0 == "priority"@ && f.1 == b.priority@
        ||| f.0 == "severity"@ && f.1 == b.severity@
        ||| f.0 == "product"@ && f.1 == b.product@
        ||| f.0 == "resolution"@ && f.1 == b.resolution@
        ||| f.0 == "status"@ && f.1 == b.status@
    }
}

/// Number of the seven attributes of `b` that are not empty.
pub open spec fn known_attributes(b: &Bug) -> int {
    (if b.assigned_to@.len() > 0 { 1int } else { 0 }) + (if b.creator@.len() > 0 { 1int } else {
        0
    }) + (if b.priority@.len() > 0 { 1int } else { 0 }) + (if b.severity@.len() > 0 { 1int } else {
        0
    }) + (if b.product@.len() > 0 { 1int } else { 0 }) + (if b.resolution@.len() > 0 { 1int } else {
        0
    }) + (if b.status@.len() > 0 { 1int } else { 0 })
}

proof fn lemma_fields_extend(
    b: &Bug,
    p: Seq<(Seq<char>, Seq<char>, bool)>,
    name: Seq<char>,
    value: Seq<char>,
    r: int,
)
    requires
        forall|i: int| 0 <= i < p.len() ==> carries_own_value(b, #[trigger] p[i]),
        forall|i: int, j: int|
            0 <= i < j < p.len() ==> field_rank(#[trigger] p[i].0) < field_rank(#[trigger] p[j].0),
        forall|i: int| 0 <= i < p.len() ==> field_rank(#[trigger] p[i].0) < r,
        field_rank(name) == r,
        value.len() > 0 ==> carries_own_value(b, (name, value, true)),
    ensures
        forall|i: int|
            0 <= i < (p + optional_field(name, value)).len() ==> carries_own_value(
                b,
                #[trigger] (p + optional_field(name, value))[i],
            ),
        forall|i: int, j: int|
            0 <= i < j < (p + optional_field(name, value)).len() ==> field_rank(
                #[trigger] (p + optional_field(name, value))[i].0,
            ) < field_rank(#[trigger] (p + optional_field(name, value))[j].0),
        forall|i: int|
            0 <= i < (p + optional_field(name, value)).len() ==> field_rank(
                #[trigger] (p + optional_field(name, value))[i].0,
            ) < r + 1,
        (p + optional_field(name, value)).len() == p.len() + (if value.len() > 0 {
            1int
        } else {
            0
        }),
{
    let q = p + optional_field(name, value);
    if value.len() == 0 {
        assert(q =~= p);
    } else {
        assert(q =~= p.push((name, value, true)));
        assert forall|i: int| 0 <= i < q.len() implies carries_own_value(b, #[trigger] q[i]) by {
            if i < p.len() {
                assert(q[i] == p[i]);
            }
        }
        assert forall|i: int, j: int| 0 <= i < j < q.len() implies field_rank(#[trigger] q[i].0)
            < field_rank(#[trigger] q[j].0) by {
            assert(q[i] == p[i]);
            if j < p.len() {
                assert(q[j] == p[j]);
            }
        }
        assert forall|i: int| 0 <= i < q.len() implies field_rank(#[trigger] q[i].0) < r + 1 by {
            if i < p.len() {
                assert(q[i] == p[i]);
            }
        }
    }
}

/// Every field of a bug's embed is inline and carries the value of the
/// attribute it is named after; the fields come in the order assigned,
/// creator, priority, severity, product, resolution, status, each name at
/// most once; and there is one field for each attribute that is not empty.
pub proof fn law_bug_fields_carry_their_values(b: &Bug)
    ensures
        forall|i: int| 0 <= i < bug_fields(b).len() ==> carries_own_value(b, #[trigger] bug_fields(b)[i]),
        forall|i: int, j: int|
            0 <= i < j < bug_fields(b).len() ==> field_rank(#[trigger] bug_fields(b)[i].0)
                < field_rank(#[trigger] bug_fields(b)[j].0),
        bug_fields(b).len() == known_attributes(b),
{
    reveal_strlit("assigned");
    reveal_strlit("creator");
    reveal_strlit("priority");
    reveal_strlit("severity");
    reveal_strlit("product");
    reveal_strlit("resolution");
    reveal_strlit("status");
    assert("assigned"@.len() == 8 && "assigned"@[0] == 'a');
    assert("creator"@.len() == 7 && "creator"@[0] == 'c');
    assert("priority"@.len() == 8 && "priority"@[0] == 'p');
    assert("severity"@.len() == 8 && "severity"@[0] == 's');
    assert("product"@.len() == 7 && "product"@[0] == 'p');
    assert("resolution"@.len() == 10);
    assert("status"@.len() == 6);
    assert(field_rank("assigned"@) == 0);
    assert(field_rank("creator"@) == 1);
    assert(field_rank("priority"@) == 2);
    assert(field_rank("severity"@) == 3);
    assert(field_rank("product"@) == 4);
    assert(field_rank("resolution"@) == 5);
    assert(field_rank("status"@) == 6);
    let e = Seq::<(Seq<char>, Seq<char>, bool)>::empty();
    let p1 = e + optional_field("assigned"@, b.assigned_to@);
    lemma_fields_extend(b, e, "assigned"@, b.assigned_to@, 0);
    let p2 = p1 + optional_field("creator"@, b.creator@);
    lemma_fields_extend(b, p1, "creator"@, b.creator@, 1);
    let p3 = p2 + optional_field("priority"@, b.priority@);
    lemma_fields_extend(b, p2, "priority"@, b.priority@, 2);
    let p4 = p3 + optional_field("severity"@, b.severity@);
    lemma_fields_extend(b, p3, "severity"@, b.severity@, 3);
    let p5 = p4 + optional_field("product"@, b.product@);
    lemma_fields_extend(b, p4, "product"@, b.product@, 4);
    let p6 = p5 + optional_field("resolution"@, b.resolution@);
    lemma_fields_extend(b, p5, "resolution"@, b.resolution@, 5);
    lemma_fields_extend(b, p6, "status"@, b.status@, 6);
    assert(e + optional_field("assigned"@, b.assigned_to@) =~= optional_field(
        "assigned"@,
        b.assigned_to@,
    ));
    assert(bug_fields(b) == p6 + optional_field("status"@, b.status@));
}

} // verus!
