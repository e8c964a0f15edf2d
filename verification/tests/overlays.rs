use twilight::commands::overlays::{
    overlay_lines, overlays, overlays_reply, package_entry, package_line, package_lines,
    page_hits, page_url, pages_to_read_of, parse_hit, search_hits, OverlaySearch, OverlaysReply,
    OverlaysStep, SearchHit,
};

fn pager(links: usize) -> String {
    let mut s = String::from("<div class=\"pager\">");
    for i in 0..links {
        s.push_str(&format!("<a href=\"p{i}\">{i}</a>"));
    }
    s.push_str("</div>");
    s
}

fn results_page(entries: &[&str], pager_links: usize) -> String {
    let mut s = String::from("<html><body><div id=\"contentInner\">");
    s.push_str(&pager(pager_links));
    for e in entries {
        s.push_str(&format!("<a href=\"/x\"><div>{e}</div></a>"));
    }
    s.push_str(&pager(pager_links));
    s.push_str("</div></body></html>");
    s
}

#[test]
fn overlays_needs_term() {
    match overlays("-overlays") {
        OverlaysStep::Reply(t) => assert_eq!(t, "You need to provide something to search for"),
        OverlaysStep::Search { .. } => panic!("expected a reply"),
    }
    match overlays("-overlays a rust") {
        OverlaysStep::Search { term, url } => {
            assert_eq!(term, "rust");
            assert_eq!(url, "http://gpo.zugaina.org/Search?search=rust");
        }
        OverlaysStep::Reply(_) => panic!("expected a search"),
    }
}

#[test]
fn page_addresses() {
    assert_eq!(page_url("rust", 2), "https://gpo.zugaina.org/Search?search=rust&use=&page=2");
    assert_eq!(page_url("go", 31), "https://gpo.zugaina.org/Search?search=go&use=&page=31");
}

#[test]
fn parse_hit_reads_entry() {
    let h = parse_hit("dev-lang/rust-bin Rust compiler, binary", "rust").unwrap();
    assert_eq!(h.atom, "dev-lang/rust-bin");
    assert_eq!(h.url, "http://gpo.zugaina.org/dev-lang/rust-bin");
    assert_eq!(
        h.line,
        "**[dev-lang/rust-bin](http://gpo.zugaina.org/dev-lang/rust-bin)** Rust compiler, binary"
    );
    assert!(parse_hit("dev-lang/rust-bin Rust", "python").is_none());
    assert!(parse_hit("app-misc/abc rust tools", "rust").is_none());
    assert!(parse_hit("rust-bin description", "rust").is_none());
    assert!(parse_hit("dev-lang/rust", "rust").is_none());
    let h = parse_hit("a/b/rust x", "rust").unwrap();
    assert_eq!(h.atom, "a/b/rust");
}

#[test]
fn page_hits_takes_first_five_entries() {
    let html = results_page(
        &["dev-lang/rust A", "x/y none", "dev-util/rustup B", "a/rust-x C", "b/rusty D", "c/rust6 E"],
        0,
    );
    let hits = page_hits(&html, "rust");
    let atoms: Vec<String> = hits.iter().map(|h| h.atom.clone()).collect();
    assert_eq!(atoms, vec!["dev-lang/rust", "dev-util/rustup", "a/rust-x", "b/rusty"]);
    assert_eq!(hits[0].line, "**[dev-lang/rust](http://gpo.zugaina.org/dev-lang/rust)** A");
}

#[test]
fn search_reads_pages_until_empty() {
    let first = results_page(&["dev-lang/rust A"], 1);
    let mut s = OverlaySearch::start("rust", &first);
    assert_eq!(s.next_url().unwrap(), "https://gpo.zugaina.org/Search?search=rust&use=&page=2");
    s.add_page(&results_page(&["dev-util/rustup B"], 1));
    assert_eq!(s.next_url(), None);
    let hits: Vec<String> = s.into_hits().into_iter().map(|h| h.atom).collect();
    assert_eq!(hits, vec!["dev-lang/rust", "dev-util/rustup"]);

    let mut s = OverlaySearch::start("rust", &results_page(&[], 6));
    assert_eq!(s.next_url().unwrap(), "https://gpo.zugaina.org/Search?search=rust&use=&page=2");
    s.add_page(&results_page(&["x/nomatch B"], 6));
    assert_eq!(s.next_url(), None);
    assert!(s.into_hits().is_empty());

    let s = OverlaySearch::start("rust", &results_page(&["dev-lang/rust A"], 0));
    assert_eq!(s.next_url(), None);
}

#[test]
fn search_caps_at_thirty_pages() {
    let first = results_page(&["dev-lang/rust A"], 16);
    let mut s = OverlaySearch::start("rust", &first);
    let mut fetched = 0;
    while let Some(url) = s.next_url() {
        fetched += 1;
        assert!(url.ends_with(&format!("page={}", fetched + 1)));
        s.add_page(&results_page(&["dev-lang/rust A"], 16));
    }
    assert_eq!(fetched, 30);
    assert_eq!(s.into_hits().len(), 31);

    let mut s = OverlaySearch::start("rust", &results_page(&[], 7));
    let mut fetched = 0;
    while let Some(_) = s.next_url() {
        fetched += 1;
        s.add_page(&results_page(&["dev-lang/rust A"], 7));
    }
    assert_eq!(fetched, 7);
}

#[test]
fn package_line_uses_first_and_last_word() {
    assert_eq!(
        package_line("  1.0  \n\t myoverlay ", "dev-lang/rust").unwrap(),
        " • **1.0** from [myoverlay](https://data.gpo.zugaina.org/myoverlay/dev-lang/rust)"
    );
    assert_eq!(
        package_line("solo", "a/b").unwrap(),
        " • **solo** from [solo](https://data.gpo.zugaina.org/solo/a/b)"
    );
    assert!(package_line(" \n\t ", "a/b").is_none());
    assert!(package_line("", "a/b").is_none());
}

#[test]
fn package_lines_from_page() {
    let html = "<html><body><div><li>1.0 gentoo</li><li> </li><li>2.0 x guru</li></div></body></html>";
    assert_eq!(
        package_lines(html, "a/b"),
        vec![
            " • **1.0** from [gentoo](https://data.gpo.zugaina.org/gentoo/a/b)".to_string(),
            " • **2.0** from [guru](https://data.gpo.zugaina.org/guru/a/b)".to_string(),
        ]
    );
    assert!(package_lines("<p>nothing</p>", "a/b").is_empty());
}

#[test]
fn package_entry_joins_lines() {
    assert_eq!(package_entry("head", &vec!["a".to_string(), "b".to_string()]), "head\na\nb");
    assert_eq!(package_entry("head", &vec![]), "head\n");
}

#[test]
fn overlays_reply_empty_result() {
    match overlays_reply("rust", "u", &vec![], "alice") {
        OverlaysReply::Text(t) => assert_eq!(t, "empty result for : rust"),
        OverlaysReply::Embeds { .. } => panic!("expected a text"),
    }
}

#[test]
fn overlays_reply_chunks_results() {
    let entries = vec!["a".repeat(3000), "b".repeat(3000)];
    match overlays_reply("rust", "http://u", &entries, "alice") {
        OverlaysReply::Embeds { sent, invalid } => {
            assert!(invalid.is_none());
            assert_eq!(sent.len(), 2);
            let whole: String = sent.iter().map(|e| e.description.clone().unwrap()).collect();
            assert_eq!(whole, format!("{}\n\n{}", "a".repeat(3000), "b".repeat(3000)));
            assert_eq!(sent[0].description.as_ref().unwrap().len(), 4000);
            assert_eq!(sent[0].title, "rust");
            assert_eq!(sent[0].url, "http://u");
            assert_eq!(sent[0].footer, "Requested by alice");
            assert!(sent[1].fields.is_empty());
        }
        OverlaysReply::Text(_) => panic!("expected embeds"),
    }
}

#[test]
fn overlays_reply_stops_at_invalid_embed() {
    let term = "t".repeat(300);
    match overlays_reply(&term, "u", &vec!["x".to_string()], "alice") {
        OverlaysReply::Embeds { sent, invalid } => {
            assert!(sent.is_empty());
            assert_eq!(invalid.unwrap().title, term);
        }
        OverlaysReply::Text(_) => panic!("expected embeds"),
    }
}

#[test]
fn search_steps_on_given_hits() {
    assert_eq!(pages_to_read_of(0), 0);
    assert_eq!(pages_to_read_of(9), 4);
    assert_eq!(pages_to_read_of(14), 7);
    assert_eq!(pages_to_read_of(16), 30);
    let hit = SearchHit { atom: "a/b".to_string(), url: "u".to_string(), line: "l".to_string() };
    let mut s = OverlaySearch::start_with("b", 4, vec![hit.clone()]);
    assert_eq!(s.next_url().unwrap(), "https://gpo.zugaina.org/Search?search=b&use=&page=2");
    s.add_hits(vec![hit.clone(), hit.clone()]);
    assert_eq!(s.next_url().unwrap(), "https://gpo.zugaina.org/Search?search=b&use=&page=3");
    s.add_hits(vec![]);
    assert_eq!(s.next_url(), None);
    assert_eq!(s.into_hits().len(), 3);
    let texts: Vec<String> = ["x/b 1", "x/c 2", "y/bb 3", "z/b 4", "w/b 5", "v/b 6"]
        .iter()
        .map(|t| t.to_string())
        .collect();
    let atoms: Vec<String> = search_hits(texts, "b").into_iter().map(|h| h.atom).collect();
    assert_eq!(atoms, vec!["x/b", "y/bb", "z/b", "w/b"]);
}

#[test]
fn overlay_lines_on_given_entries() {
    let texts: Vec<String> = ["1 a", "", "2 b", "3 c", "4 d", "5 e", "6 f"]
        .iter()
        .map(|t| t.to_string())
        .collect();
    let lines = overlay_lines(texts, "x/y");
    assert_eq!(lines.len(), 4);
    assert_eq!(lines[0], " • **1** from [a](https://data.gpo.zugaina.org/a/x/y)");
    assert_eq!(lines[3], " • **4** from [d](https://data.gpo.zugaina.org/d/x/y)");
}
