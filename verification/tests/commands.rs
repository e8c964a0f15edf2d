use twilight::commands::bug::{
    bug, bug_embed_at, bug_number, bug_reply, creation_timestamp, BugReply, BugStep,
};
use twilight::commands::info;
use twilight::commands::info::delete::{delete, deleted_reply};
use twilight::commands::info::register::{register, register_can_cut, registered_reply, InfoStep};
use twilight::commands::info::show::{show, ShowStep};
use twilight::commands::wiki::wiki;
use twilight::handler::{handle_event, help, Command};
use twilight::types::gentoo::{Bug, Bugs};

fn sample_bug() -> Bug {
    Bug {
        summary: "sys-apps/foo fails to build".to_string(),
        creation_time: "2021-01-01T00:00:00Z".to_string(),
        assigned_to: "dev@gentoo.org".to_string(),
        creator: "".to_string(),
        priority: "Normal".to_string(),
        severity: "".to_string(),
        product: "Gentoo Linux".to_string(),
        resolution: "".to_string(),
        status: "CONFIRMED".to_string(),
    }
}

#[test]
fn dispatch_reads_first_word() {
    assert_eq!(handle_event(false, "-help"), Some(Command::Help));
    assert_eq!(handle_event(true, "  -bug 123"), Some(Command::Bug));
    assert_eq!(handle_event(true, "-wiki gentoo"), Some(Command::Wiki));
    assert_eq!(handle_event(true, "-overlays rust"), Some(Command::Overlays));
    assert_eq!(handle_event(true, "-register k v"), Some(Command::Register));
    assert_eq!(handle_event(true, "-show k"), Some(Command::Show));
    assert_eq!(handle_event(true, "-list"), Some(Command::List));
    assert_eq!(handle_event(false, "-delete k"), Some(Command::Delete));
}

#[test]
fn dispatch_ignores_other_messages() {
    assert_eq!(handle_event(false, " -bug 1"), None);
    assert_eq!(handle_event(false, "hello -bug"), None);
    assert_eq!(handle_event(true, "hello -bug"), None);
    assert_eq!(handle_event(true, "-bugs"), None);
    assert_eq!(handle_event(true, ""), None);
    assert_eq!(handle_event(true, "   "), None);
    assert_eq!(handle_event(false, "-"), None);
    assert_eq!(handle_event(true, "\u{3000}-list"), Some(Command::List));
}

#[test]
fn help_and_wiki_texts() {
    assert_eq!(
        help(),
        "I can handle -bug <num> command, and maybe -overlays <search>, and -wiki <search>"
    );
    assert_eq!(
        wiki(),
        "Not yet implemented here! Will do later, use ~wiki and Amadeus will respond"
    );
}

#[test]
fn bug_number_takes_first_number() {
    assert_eq!(bug_number("-bug 12345", None), 12345);
    assert_eq!(bug_number("-bug abc 7 8", None), 7);
    assert_eq!(bug_number("-bug +7", None), 7);
    assert_eq!(bug_number("-bug -5", None), -5);
    assert_eq!(bug_number("-bug 99999999999 42", None), 42);
    assert_eq!(bug_number("-bug 2147483647", None), 2147483647);
    assert_eq!(bug_number("-bug 2147483648", None), -1);
    assert_eq!(bug_number("-bug -2147483648", None), -2147483648);
    assert_eq!(bug_number("-bug ++1 - + 1x", None), -1);
    assert_eq!(bug_number("-bug", None), -1);
    assert_eq!(bug_number("-bug 5", Some(3)), 3);
}

#[test]
fn bug_asks_for_number() {
    match bug("-bug nothing", None) {
        BugStep::Reply(t) => assert_eq!(t, "You need to provide bug number to search for"),
        BugStep::Fetch { .. } => panic!("expected a reply"),
    }
    match bug("-bug -3", None) {
        BugStep::Reply(t) => assert_eq!(t, "You need to provide bug number to search for"),
        BugStep::Fetch { .. } => panic!("expected a reply"),
    }
    match bug("-bug 0012345", None) {
        BugStep::Fetch { number, url } => {
            assert_eq!(number, 12345);
            assert_eq!(url, "https://bugs.gentoo.org/rest/bug?id=12345");
        }
        BugStep::Reply(_) => panic!("expected a fetch"),
    }
    match bug("-bug", Some(0)) {
        BugStep::Fetch { number, url } => {
            assert_eq!(number, 0);
            assert_eq!(url, "https://bugs.gentoo.org/rest/bug?id=0");
        }
        BugStep::Reply(_) => panic!("expected a fetch"),
    }
}

#[test]
fn bug_reply_not_found() {
    match bug_reply(&Bugs { bugs: vec![] }, 42, "alice") {
        BugReply::Text(t) => assert_eq!(t, "Can't find bug 42"),
        _ => panic!("expected a text"),
    }
}

#[test]
fn bug_reply_builds_embed() {
    match bug_reply(&Bugs { bugs: vec![sample_bug(), Bug { summary: "other".to_string(), ..sample_bug() }] }, 900, "alice") {
        BugReply::Embed(e) => {
            assert_eq!(e.title, "sys-apps/foo fails to build");
            assert_eq!(e.url, "https://bugs.gentoo.org/900");
            assert_eq!(e.color, 0xfd69b3);
            assert_eq!(e.description, None);
            assert_eq!(e.footer, "Requested by alice");
            assert_eq!(e.timestamp, Some(1609459200));
            let fields: Vec<(String, String, bool)> =
                e.fields.iter().map(|f| (f.name.clone(), f.value.clone(), f.inline)).collect();
            assert_eq!(
                fields,
                vec![
                    ("assigned".to_string(), "dev@gentoo.org".to_string(), true),
                    ("priority".to_string(), "Normal".to_string(), true),
                    ("product".to_string(), "Gentoo Linux".to_string(), true),
                    ("status".to_string(), "CONFIRMED".to_string(), true),
                ]
            );
        }
        _ => panic!("expected an embed"),
    }
}

#[test]
fn bug_timestamp_needs_rfc3339() {
    let b = Bug { creation_time: "yesterday".to_string(), ..sample_bug() };
    match bug_reply(&Bugs { bugs: vec![b] }, 1, "bob") {
        BugReply::Embed(e) => assert_eq!(e.timestamp, None),
        _ => panic!("expected an embed"),
    }
    let b = Bug { creation_time: "2024-05-06T07:08:09+02:00".to_string(), ..sample_bug() };
    match bug_reply(&Bugs { bugs: vec![b] }, 1, "bob") {
        BugReply::Embed(e) => assert_eq!(e.timestamp, Some(1714972089)),
        _ => panic!("expected an embed"),
    }
    let b = Bug { creation_time: "".to_string(), ..sample_bug() };
    match bug_reply(&Bugs { bugs: vec![b] }, 1, "bob") {
        BugReply::Embed(e) => assert_eq!(e.timestamp, None),
        _ => panic!("expected an embed"),
    }
}

#[test]
fn bug_reply_refuses_long_title() {
    let b = Bug { summary: "x".repeat(257), ..sample_bug() };
    match bug_reply(&Bugs { bugs: vec![b] }, 1, "bob") {
        BugReply::Invalid(e) => assert_eq!(e.title.len(), 257),
        _ => panic!("expected an invalid embed"),
    }
    let b = Bug { summary: "x".repeat(256), ..sample_bug() };
    assert!(matches!(bug_reply(&Bugs { bugs: vec![b] }, 1, "bob"), BugReply::Embed(_)));
    let b = Bug { status: "s".repeat(1025), ..sample_bug() };
    assert!(matches!(bug_reply(&Bugs { bugs: vec![b] }, 1, "bob"), BugReply::Invalid(_)));
}

#[test]
fn register_stores_rest_of_message() {
    match register("-register key some text") {
        InfoStep::Store { key, text } => {
            assert_eq!(key, "key");
            assert_eq!(text, "some text");
        }
        InfoStep::Reply(_) => panic!("expected a store"),
    }
    match register("-register ключ текст") {
        InfoStep::Store { key, text } => {
            assert_eq!(key, "ключ");
            assert_eq!(text, "текст");
        }
        InfoStep::Reply(_) => panic!("expected a store"),
    }
    match register("-register  key x") {
        InfoStep::Store { key, text } => {
            assert_eq!(key, "key");
            assert_eq!(text, " x");
        }
        InfoStep::Reply(_) => panic!("expected a store"),
    }
}

#[test]
fn register_complaints() {
    match register("-register") {
        InfoStep::Reply(t) => assert_eq!(t, "You need to provide something to register"),
        InfoStep::Store { .. } => panic!("expected a reply"),
    }
    match register("-register a") {
        InfoStep::Reply(t) => assert_eq!(t, "You need to provide something to register"),
        InfoStep::Store { .. } => panic!("expected a reply"),
    }
    match register("-register key ") {
        InfoStep::Reply(t) => assert_eq!(t, "You need to provide text for a key after it"),
        InfoStep::Store { .. } => panic!("expected a reply"),
    }
}

#[test]
fn register_cut_bounds() {
    assert!(register_can_cut("-register"));
    assert!(register_can_cut("-register key "));
    assert!(!register_can_cut("-register key"));
    assert!(!register_can_cut("-register\u{3000}é x"));
    assert!(register_can_cut("-register key text"));
}

#[test]
fn first_register_form_keeps_empty_text() {
    match info::register("-register key ") {
        InfoStep::Store { key, text } => {
            assert_eq!(key, "key");
            assert_eq!(text, "");
        }
        InfoStep::Reply(_) => panic!("expected a store"),
    }
    match info::register("") {
        InfoStep::Reply(t) => assert_eq!(t, "You need to provide something to register"),
        InfoStep::Store { .. } => panic!("expected a reply"),
    }
}

#[test]
fn show_and_delete_keys() {
    match show("-show x key") {
        ShowStep::Read(k) => assert_eq!(k, "key"),
        ShowStep::Reply(_) => panic!("expected a read"),
    }
    match show("-show") {
        ShowStep::Reply(t) => assert_eq!(t, "You need to provide something to show"),
        ShowStep::Read(_) => panic!("expected a reply"),
    }
    match info::show("-show é") {
        ShowStep::Read(k) => assert_eq!(k, "é"),
        ShowStep::Reply(_) => panic!("expected a read"),
    }
    assert_eq!(delete("-delete  old\u{a0}more"), "old");
    assert_eq!(delete("-delete"), "");
    assert_eq!(info::delete("-delete -delete k2"), "k2");
}

#[test]
fn info_replies() {
    assert_eq!(registered_reply("key"), "Registered key");
    assert_eq!(deleted_reply("key"), "Deleted key");
}

#[test]
fn bug_embed_on_given_timestamp() {
    let e = bug_embed_at(&Bug { creator: "me".to_string(), ..sample_bug() }, 7, "carol", Some(99));
    assert_eq!(e.timestamp, Some(99));
    assert_eq!(e.url, "https://bugs.gentoo.org/7");
    assert_eq!(e.fields[1].name, "creator");
    assert_eq!(e.fields.len(), 5);
    let e = bug_embed_at(&sample_bug(), 7, "carol", None);
    assert_eq!(e.timestamp, None);
    assert_eq!(creation_timestamp("1970-01-01T00:00:10Z"), Some(10));
    assert_eq!(creation_timestamp("1970-01-01T01:00:10+01:00"), Some(10));
    assert_eq!(creation_timestamp("2021-13-01T00:00:00Z"), None);
    assert_eq!(creation_timestamp(""), None);
}

#[test]
fn timestamps_at_the_ends_of_the_range() {
    assert_eq!(creation_timestamp("9999-12-31T23:59:59Z"), Some(253402300799));
    assert_eq!(creation_timestamp("0000-01-01T00:00:00Z"), Some(-62167219200));
}
