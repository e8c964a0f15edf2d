//! `-overlays <name>`: searches gpo.zugaina.org for packages in Gentoo
//! overlays and lists where each one can be found.

use vstd::prelude::*;
use crate::deps::{embed_validates, select_texts, selected_texts};
use crate::embed::{embed_within_limits, requested_by, requested_by_text, EmbedSpec, EMBED_COLOR};
use crate::number::{decimal, decimal_spec};
use crate::text::{
    argument, argument_of, chars_of, chunk_text, chunks, contains_in, contains_text, find_char,
    index_of, join, join_strings, law_chunks_rebuild_text, next_piece, pieces, utf8_len, views,
    Separators, CHUNK_BYTES,
};

verus! {

/// Selector of the links to further result pages (each appears twice).
pub open spec fn pager_selector() -> Seq<char> {
    "div[id=\"contentInner\"] > div[class=\"pager\"] > a[href]"@
}

/// Selector of the result entries of a search page.
pub open spec fn hit_selector() -> Seq<char> {
    "a > div"@
}

/// Selector of the overlay entries of a package page.
pub open spec fn package_selector() -> Seq<char> {
    "div > li"@
}

/// The selectors this command runs on the pages it reads.
pub open spec fn is_page_selector(s: Seq<char>) -> bool {
    s == pager_selector() || s == hit_selector() || s == package_selector()
}

/// At most the first five of `s`.
pub open spec fn first_five(s: Seq<Seq<char>>) -> Seq<Seq<char>> {
    if s.len() <= 5 {
        s
    } else {
        s.take(5)
    }
}

/// Reply when the command names nothing to search for.
pub open spec fn missing_term_text() -> Seq<char> {
    "You need to provide something to search for"@
}

/// Address of the first page of results for `term`.
pub open spec fn search_url_of(term: Seq<char>) -> Seq<char> {
    "http://gpo.zugaina.org/Search?search="@ + term
}

/// Address of result page `page` for `term`.
pub open spec fn page_url_of(term: Seq<char>, page: nat) -> Seq<char> {
    "https://gpo.zugaina.org/Search?search="@ + term + "&use=&page="@ + decimal_spec(page)
}

/// Address of the page of package `atom`.
pub open spec fn package_url(atom: Seq<char>) -> Seq<char> {
    "http://gpo.zugaina.org/"@ + atom
}

/// The line that presents package `atom`: a bold link to its page, then its
/// description.
pub open spec fn hit_line(atom: Seq<char>, description: Seq<char>) -> Seq<char> {
    "**["@ + atom + "](http://gpo.zugaina.org/"@ + atom + ")** "@ + description
}

/// A search result entry `category/name description` whose package name
/// contains `term`, as (atom, package address, line); `None` for any other
/// text.
pub open spec fn parse_hit_spec(text: Seq<char>, term: Seq<char>) -> Option<
    (Seq<char>, Seq<char>, Seq<char>),
> {
    match index_of(text, ' ') {
        None => None,
        Some(i) => {
            let atom = text.take(i as int);
            let description = text.skip(i as int + 1);
            match index_of(atom, '/') {
                None => None,
                Some(j) => if contains_text(atom.skip(j as int + 1), term) {
                    Some((atom, package_url(atom), hit_line(atom, description)))
                } else {
                    None
                },
            }
        },
    }
}

/// The hits among `texts`, in order.
pub open spec fn hits_of(texts: Seq<Seq<char>>, term: Seq<char>) -> Seq<
    (Seq<char>, Seq<char>, Seq<char>),
>
    decreases texts.len(),
{
    if texts.len() == 0 {
        Seq::empty()
    } else {
        let rest = hits_of(texts.drop_first(), term);
        match parse_hit_spec(texts[0], term) {
            Some(h) => seq![h] + rest,
            None => rest,
        }
    }
}

/// The hits on a search result page: those among its first five entries.
pub open spec fn page_hits_spec(html: Seq<char>, term: Seq<char>) -> Seq<
    (Seq<char>, Seq<char>, Seq<char>),
> {
    hits_of(first_five(selected_texts(html, hit_selector())), term)
}

/// How many further result pages to read after the first: the pager links
/// of the first page count each page twice; more than seven pages are read
/// as thirty, since the pager does not show them all.
pub open spec fn pages_to_read(pager_links: nat) -> nat {
    if pager_links / 2 > 7 {
        30
    } else {
        pager_links / 2
    }
}

/// How many further result pages to read, given the number of pager links
/// on the first page (see `pages_to_read`).
pub fn pages_to_read_of(pager_links: usize) -> (r: usize)
    ensures
        r == pages_to_read(pager_links as nat),
        r <= 30,
{
    let half = pager_links / 2;
    if half > 7 {
        30
    } else {
        half
    }
}

/// One package found by a search.
#[derive(Clone, Debug)]
pub struct SearchHit {
    /// `category/name` of the package.
    pub atom: String,
    /// Address of the package's page.
    pub url: String,
    /// The line that presents the package.
    pub line: String,
}

pub open spec fn hit_view(h: SearchHit) -> (Seq<char>, Seq<char>, Seq<char>) {
    (h.atom@, h.url@, h.line@)
}

pub open spec fn hit_views(hs: Seq<SearchHit>) -> Seq<(Seq<char>, Seq<char>, Seq<char>)> {
    hs.map_values(|h: SearchHit| hit_view(h))
}

/// What the first step of `-overlays` does.
#[derive(Debug)]
pub enum OverlaysStep {
    /// Answer with this text and stop.
    Reply(String),
    /// Search for `term`, starting with the page at `url`.
    Search { term: String, url: String },
}

/// First step of `-overlays`: the search term is the first word longer than
/// one byte other than `-overlays` itself.
pub fn overlays(content: &str) -> (s: OverlaysStep)
    ensures
        argument_of(content@, "-overlays"@).len() == 0 ==> (s matches OverlaysStep::Reply(t)
            && t@ == missing_term_text()),
        argument_of(content@, "-overlays"@).len() > 0 ==> (s matches OverlaysStep::Search {
            term,
            url,
        } && term@ == argument_of(content@, "-overlays"@) && url@ == search_url_of(term@)),
{
    let term = argument(content, "-overlays");
    if term.as_str().is_empty() {
        OverlaysStep::Reply(String::from_str("You need to provide something to search for"))
    } else {
        let url = String::from_str("http://gpo.zugaina.org/Search?search=").concat(term.as_str());
        OverlaysStep::Search { term, url }
    }
}

/// Address of result page `page` for `term`.
pub fn page_url(term: &str, page: u64) -> (r: String)
    ensures
        r@ == page_url_of(term@, page as nat),
{
    String::from_str("https://gpo.zugaina.org/Search?search=").concat(term).concat(
        "&use=&page=",
    ).concat(decimal(page).as_str())
}

/// Reads one search result entry (see `parse_hit_spec`).
pub fn parse_hit(text: &str, term: &str) -> (r: Option<SearchHit>)
    ensures
        match r {
            Some(h) => parse_hit_spec(text@, term@) == Some(hit_view(h)),
            None => parse_hit_spec(text@, term@) is None,
        },
{
    let cs = chars_of(text);
    let term_cs = chars_of(term);
    let n = cs.len();
    match find_char(&cs, 0, n, ' ') {
        None => {
            assert(cs@.subrange(0, n as int) =~= cs@);
            None
        },
        Some(i) => {
            assert(cs@.subrange(0, n as int) =~= cs@);
            let ghost atom = text@.take(i as int);
            assert(cs@.subrange(0, i as int) =~= atom);
            match find_char(&cs, 0, i, '/') {
                None => None,
                Some(j) => {
                    assert(cs@.subrange(j + 1, i as int) =~= atom.skip(j + 1));
                    if contains_in(&cs, j + 1, i, &term_cs) {
                        let atom_s = text.substring_char(0, i).to_owned();
                        let description = text.substring_char(i + 1, n);
                        assert(description@ =~= text@.skip(i + 1));
                        let url = String::from_str("http://gpo.zugaina.org/").concat(
                            atom_s.as_str(),
                        );
                        let line = String::from_str("**[").concat(atom_s.as_str()).concat(
                            "](http://gpo.zugaina.org/",
                        ).concat(atom_s.as_str()).concat(")** ").concat(description);
                        Some(SearchHit { atom: atom_s, url, line })
                    } else {
                        None
                    }
                },
            }
        },
    }
}

/// The hits among `texts`, in order.
fn hits_in(texts: &Vec<String>, term: &str) -> (r: Vec<SearchHit>)
    ensures
        hit_views(r@) == hits_of(views(texts@), term@),
{
    let mut r: Vec<SearchHit> = Vec::new();
    let mut k = texts.len();
    let ghost all = views(texts@);
    assert(all.skip(k as int) =~= Seq::<Seq<char>>::empty());
    while k > 0
        invariant
            k <= texts.len(),
            all == views(texts@),
            hit_views(r@) == hits_of(all.skip(k as int), term@),
        decreases k,
    {
        k = k - 1;
        assert(all.skip(k as int).drop_first() =~= all.skip(k + 1));
        assert(all.skip(k as int)[0] == texts@[k as int]@);
        match parse_hit(texts[k].as_str(), term) {
            Some(h) => {
                let ghost before = r@;
                r.insert(0, h);
                assert(hit_views(r@) =~= seq![hit_view(h)] + hit_views(before));
            },
            None => {},
        }
    }
    assert(all.skip(0) =~= all);
    r
}

/// The first five of `v`, or all of them when there are fewer.
fn first_five_of(v: Vec<String>) -> (r: Vec<String>)
    ensures
        views(r@) == first_five(views(v@)),
{
    let mut w = v;
    if w.len() > 5 {
        w.truncate(5);
        assert(views(w@) =~= views(v@).take(5));
    }
    w
}

/// The hits among the entry texts of a search result page: those among its
/// first five entries.
pub fn search_hits(entries: Vec<String>, term: &str) -> (r: Vec<SearchHit>)
    ensures
        hit_views(r@) == hits_of(first_five(views(entries@)), term@),
{
    let texts = first_five_of(entries);
    hits_in(&texts, term)
}

/// The hits on the search result page `html` (see `page_hits_spec`).
pub fn page_hits(html: &str, term: &str) -> (r: Vec<SearchHit>)
    ensures
        hit_views(r@) == page_hits_spec(html@, term@),
{
    search_hits(select_texts(html, "a > div"), term)
}

/// The state of a search over the result pages of one term: how many further
/// pages to read, how many have been read, whether an empty page ended the
/// search, and the hits so far.
pub struct OverlaySearch {
    term: String,
    pages: usize,
    read: usize,
    stopped: bool,
    hits: Vec<SearchHit>,
}

impl OverlaySearch {
    /// Well-formed: the pages read never exceed the pages to read, which
    /// never exceed thirty, and each page read (the first one too) gave at
    /// most five hits.
    pub closed spec fn wf(&self) -> bool {
        &&& self.read <= self.pages <= 30
        &&& self.hits@.len() <= 5 * (self.read + 1)
    }

    pub closed spec fn term(&self) -> Seq<char> {
        self.term@
    }

    /// Number of further result pages to read at most.
    pub closed spec fn pages(&self) -> nat {
        self.pages as nat
    }

    /// Number of further result pages read.
    pub closed spec fn read(&self) -> nat {
        self.read as nat
    }

    /// Whether a page without hits has ended the search.
    pub closed spec fn stopped(&self) -> bool {
        self.stopped
    }

    /// The hits found so far, in page order.
    pub closed spec fn found(&self) -> Seq<(Seq<char>, Seq<char>, Seq<char>)> {
        hit_views(self.hits@)
    }

    /// Whether another result page is to be read.
    pub open spec fn wants_page(&self) -> bool {
        !self.stopped() && self.read() < self.pages()
    }

    /// Starts the search for `term` from what its first result page shows:
    /// `pager_links` links to further pages, and the `hits` on it.
    pub fn start_with(term: &str, pager_links: usize, hits: Vec<SearchHit>) -> (s: Self)
        requires
            hits@.len() <= 5,
        ensures
            s.wf(),
            s.term() == term@,
            s.pages() == pages_to_read(pager_links as nat),
            s.read() == 0,
            !s.stopped(),
            s.found() == hit_views(hits@),
    {
        let pages = pages_to_read_of(pager_links);
        OverlaySearch { term: String::from_str(term), pages, read: 0, stopped: false, hits }
    }

    /// Starts the search for `term` from its first result page `html`.
    pub fn start(term: &str, html: &str) -> (s: Self)
        ensures
            s.wf(),
            s.term() == term@,
            s.pages() == pages_to_read(selected_texts(html@, pager_selector()).len()),
            s.read() == 0,
            !s.stopped(),
            s.found() == page_hits_spec(html@, term@),
    {
        let links = select_texts(html, "div[id=\"contentInner\"] > div[class=\"pager\"] > a[href]");
        let hits = page_hits(html, term);
        proof {
            law_pages_yield_at_most_five(html@, term@, Seq::empty());
        }
        Self::start_with(term, links.len(), hits)
    }

    /// Address of the next result page to read, if any: pages are numbered
    /// from 2, the first page being read by `start`.
    pub fn next_url(&self) -> (r: Option<String>)
        requires
            self.wf(),
        ensures
            self.wants_page() ==> (r matches Some(u) && u@ == page_url_of(
                self.term(),
                self.read() + 2,
            )),
            !self.wants_page() ==> r is None,
    {
        if !self.stopped && self.read < self.pages {
            Some(page_url(self.term.as_str(), (self.read + 2) as u64))
        } else {
            None
        }
    }

    /// Takes in the next result page `html`: its hits are added; a page
    /// without hits ends the search.
    pub fn add_page(&mut self, html: &str)
        requires
            old(self).wf(),
            old(self).wants_page(),
        ensures
            final(self).wf(),
            final(self).term() == old(self).term(),
            final(self).pages() == old(self).pages(),
            final(self).read() == old(self).read() + 1,
            final(self).stopped() == (page_hits_spec(html@, old(self).term()).len() == 0),
            final(self).found() == old(self).found() + page_hits_spec(html@, old(self).term()),
    {
        let page = page_hits(html, self.term.as_str());
        proof {
            law_pages_yield_at_most_five(html@, self.term@, Seq::empty());
        }
        self.add_hits(page);
    }

    /// Takes in the hits of the next result page: they are added; a page
    /// without hits ends the search.
    pub fn add_hits(&mut self, page: Vec<SearchHit>)
        requires
            old(self).wf(),
            page@.len() <= 5,
            old(self).wants_page(),
        ensures
            final(self).wf(),
            final(self).term() == old(self).term(),
            final(self).pages() == old(self).pages(),
            final(self).read() == old(self).read() + 1,
            final(self).stopped() == (page@.len() == 0),
            final(self).found() == old(self).found() + hit_views(page@),
    {
        let ghost before = self.hits@;
        let mut hits = Vec::new();
        std::mem::swap(&mut hits, &mut self.hits);
        let mut page = page;
        let empty = page.len() == 0;
        let ghost page_before = page@;
        hits.append(&mut page);
        assert(hit_views(hits@) =~= hit_views(before) + hit_views(page_before));
        self.stopped = empty;
        self.read = self.read + 1;
        self.hits = hits;
    }

    /// The hits found.
    pub fn into_hits(self) -> (r: Vec<SearchHit>)
        ensures
            hit_views(r@) == self.found(),
    {
        self.hits
    }
}

/// A search reads at most thirty further result pages, whatever pages it
/// is given, and finds at most five hits per page read: at most 155 hits,
/// so `-overlays` asks for at most 1 + 30 + 155 pages in all.
pub proof fn law_search_reads_at_most_thirty_pages(s: &OverlaySearch)
    requires
        s.wf(),
    ensures
        s.read() <= s.pages() <= 30,
        s.found().len() <= 5 * (s.read() + 1) <= 155,
{
}

/// No more hits than texts are read.
pub proof fn lemma_hits_of_len(texts: Seq<Seq<char>>, term: Seq<char>)
    ensures
        hits_of(texts, term).len() <= texts.len(),
    decreases texts.len(),
{
    if texts.len() > 0 {
        lemma_hits_of_len(texts.drop_first(), term);
    }
}

/// No more overlay lines than texts are read.
pub proof fn lemma_lines_of_len(texts: Seq<Seq<char>>, atom: Seq<char>)
    ensures
        lines_of(texts, atom).len() <= texts.len(),
    decreases texts.len(),
{
    if texts.len() > 0 {
        lemma_lines_of_len(texts.drop_first(), atom);
    }
}

/// A result page yields at most five hits, and a package page at most five
/// overlay lines, whatever the pages hold.
pub proof fn law_pages_yield_at_most_five(html: Seq<char>, term: Seq<char>, atom: Seq<char>)
    ensures
        page_hits_spec(html, term).len() <= 5,
        package_lines_spec(html, atom).len() <= 5,
{
    lemma_hits_of_len(first_five(selected_texts(html, hit_selector())), term);
    lemma_lines_of_len(first_five(selected_texts(html, package_selector())), atom);
}

/// A page without hits ends a search: no further page is asked for, however
/// many the pager announced.
pub proof fn law_empty_page_ends_search(s: &OverlaySearch)
    requires
        s.stopped(),
    ensures
        !s.wants_page(),
{
}

/// The line that shows one overlay of package `atom`: the first and last
/// words of the entry text (split at spaces, tabs and line feeds), the last
/// one being the overlay's name; `None` for a text without words.
pub open spec fn package_line_spec(text: Seq<char>, atom: Seq<char>) -> Option<Seq<char>> {
    let words = pieces(text, Separators::SpaceTabNewline);
    if words.len() == 0 {
        None
    } else {
        Some(
            " • **"@ + words[0] + "** from ["@ + words.last() + "](https://data.gpo.zugaina.org/"@
                + words.last() + "/"@ + atom + ")"@,
        )
    }
}

/// The lines of `texts` that have words, in order.
pub open spec fn lines_of(texts: Seq<Seq<char>>, atom: Seq<char>) -> Seq<Seq<char>>
    decreases texts.len(),
{
    if texts.len() == 0 {
        Seq::empty()
    } else {
        let rest = lines_of(texts.drop_first(), atom);
        match package_line_spec(texts[0], atom) {
            Some(l) => seq![l] + rest,
            None => rest,
        }
    }
}

/// The overlay lines of package page `html`: from its first five entries.
pub open spec fn package_lines_spec(html: Seq<char>, atom: Seq<char>) -> Seq<Seq<char>> {
    lines_of(first_five(selected_texts(html, package_selector())), atom)
}

/// The line for one overlay entry (see `package_line_spec`).
pub fn package_line(text: &str, atom: &str) -> (r: Option<String>)
    ensures
        match r {
            Some(l) => package_line_spec(text@, atom@) == Some(l@),
            None => package_line_spec(text@, atom@) is None,
        },
{
    let cs = chars_of(text);
    let kind = Separators::SpaceTabNewline;
    assert(cs@.skip(0) =~= cs@);
    match next_piece(&cs, 0, kind) {
        None => None,
        Some((a, b)) => {
            let mut last_a = a;
            let mut last_b = b;
            let mut pos = b;
            let ghost mut seen: Seq<Seq<char>> = seq![cs@.subrange(a as int, b as int)];
            loop
                invariant
                    pos <= cs.len(),
                    last_a < last_b <= cs.len(),
                    seen.len() > 0,
                    seen[0] == cs@.subrange(a as int, b as int),
                    seen.last() == cs@.subrange(last_a as int, last_b as int),
                    pieces(cs@, kind) == seen + pieces(cs@.skip(pos as int), kind),
                ensures
                    last_a < last_b <= cs.len(),
                    seen.len() > 0,
                    seen[0] == cs@.subrange(a as int, b as int),
                    seen.last() == cs@.subrange(last_a as int, last_b as int),
                    pieces(cs@, kind) == seen,
                decreases cs.len() - pos,
            {
                match next_piece(&cs, pos, kind) {
                    None => {
                        assert(seen + Seq::<Seq<char>>::empty() =~= seen);
                        break;
                    },
                    Some((c, d)) => {
                        proof {
                            let w = cs@.subrange(c as int, d as int);
                            assert(seen + (seq![w] + pieces(cs@.skip(d as int), kind)) =~= seen.push(
                                w,
                            ) + pieces(cs@.skip(d as int), kind));
                            seen = seen.push(w);
                        }
                        last_a = c;
                        last_b = d;
                        pos = d;
                    },
                }
            }
            assert(cs@ == text@);
            let first = text.substring_char(a, b);
            let last = text.substring_char(last_a, last_b);
            let line = String::from_str(" • **").concat(first).concat("** from [").concat(
                last,
            ).concat("](https://data.gpo.zugaina.org/").concat(last).concat("/").concat(
                atom,
            ).concat(")");
            Some(line)
        },
    }
}

/// The overlay lines of package page `html` (see `package_lines_spec`).
pub fn package_lines(html: &str, atom: &str) -> (r: Vec<String>)
    ensures
        views(r@) == package_lines_spec(html@, atom@),
{
    overlay_lines(select_texts(html, "div > li"), atom)
}

/// The overlay lines among the entry texts of a package page: from its first
/// five entries.
pub fn overlay_lines(entries: Vec<String>, atom: &str) -> (r: Vec<String>)
    ensures
        views(r@) == lines_of(first_five(views(entries@)), atom@),
{
    let texts = first_five_of(entries);
    let ghost all = views(texts@);
    let mut r: Vec<String> = Vec::new();
    let mut k = texts.len();
    assert(all.skip(k as int) =~= Seq::<Seq<char>>::empty());
    while k > 0
        invariant
            k <= texts.len(),
            all == views(texts@),
            views(r@) == lines_of(all.skip(k as int), atom@),
        decreases k,
    {
        k = k - 1;
        assert(all.skip(k as int).drop_first() =~= all.skip(k + 1));
        assert(all.skip(k as int)[0] == texts@[k as int]@);
        match package_line(texts[k].as_str(), atom) {
            Some(l) => {
                let ghost before = r@;
                r.insert(0, l);
                assert(views(r@) =~= seq![l@] + views(before));
            },
            None => {},
        }
    }
    assert(all.skip(0) =~= all);
    r
}

/// The text for one package: its line, then its overlay lines.
pub open spec fn package_entry_spec(line: Seq<char>, lines: Seq<Seq<char>>) -> Seq<char> {
    line + "\n"@ + join(lines, "\n"@)
}

/// The text for one package (see `package_entry_spec`).
pub fn package_entry(line: &str, lines: &Vec<String>) -> (r: String)
    ensures
        r@ == package_entry_spec(line@, views(lines@)),
{
    String::from_str(line).concat("\n").concat(join_strings(lines, "\n").as_str())
}

/// Reply when a search finds nothing.
pub open spec fn empty_result_text(term: Seq<char>) -> Seq<char> {
    "empty result for : "@ + term
}

/// `e` is the embed that shows `chunk` of the results for `term`.
pub open spec fn is_overlay_embed(
    e: &EmbedSpec,
    term: Seq<char>,
    url: Seq<char>,
    author: Seq<char>,
    chunk: Seq<char>,
) -> bool {
    &&& e.title@ == term
    &&& e.url@ == url
    &&& e.color == EMBED_COLOR
    &&& (e.description matches Some(d) && d@ == chunk)
    &&& e.fields@.len() == 0
    &&& e.footer@ == requested_by(author)
    &&& e.timestamp is None
}

/// The text of all package entries, a blank line between neighbours.
pub open spec fn results_text(entries: Seq<Seq<char>>) -> Seq<char> {
    join(entries, "\n\n"@)
}

/// What `-overlays` answers once the packages are known.
#[derive(Debug)]
pub enum OverlaysReply {
    /// Answer with this text.
    Text(String),
    /// Send these embeds in order; when `invalid` holds one, Discord's limits
    /// refuse it and the command fails there.
    Embeds { sent: Vec<EmbedSpec>, invalid: Option<EmbedSpec> },
}

/// What `-overlays` answers for `term` (first page at `url`) once the
/// package `entries` are known: a note when there are none, else the entries
/// joined and cut into chunks, one embed per chunk, up to the first embed
/// that breaks Discord's limits.
pub fn overlays_reply(term: &str, url: &str, entries: &Vec<String>, author: &str) -> (r:
    OverlaysReply)
    ensures
        entries@.len() == 0 ==> (r matches OverlaysReply::Text(t) && t@ == empty_result_text(
            term@,
        )),
        entries@.len() > 0 ==> match r {
            OverlaysReply::Embeds { sent, invalid } => {
                let cs = chunks(results_text(views(entries@)));
                &&& sent@.len() <= cs.len()
                &&& forall|i: int|
                    0 <= i < sent@.len() ==> is_overlay_embed(
                        &#[trigger] sent@[i],
                        term@,
                        url@,
                        author@,
                        cs[i],
                    ) && embed_within_limits(&sent@[i])
                &&& match invalid {
                    Some(e) => sent@.len() < cs.len() && is_overlay_embed(
                        &e,
                        term@,
                        url@,
                        author@,
                        cs[sent@.len() as int],
                    ) && !embed_within_limits(&e),
                    None => sent@.len() == cs.len(),
                }
            },
            OverlaysReply::Text(_) => false,
        },
{
    if entries.len() == 0 {
        return OverlaysReply::Text(String::from_str("empty result for : ").concat(term));
    }
    let text = join_strings(entries, "\n\n");
    let pieces = chunk_text(text.as_str());
    let ghost cs = views(pieces@);
    let mut sent: Vec<EmbedSpec> = Vec::new();
    let mut i: usize = 0;
    while i < pieces.len()
        invariant
            i <= pieces.len(),
            cs == views(pieces@),
            cs == chunks(results_text(views(entries@))),
            entries@.len() > 0,
            sent@.len() == i,
            forall|k: int|
                0 <= k < i ==> is_overlay_embed(&#[trigger] sent@[k], term@, url@, author@, cs[k])
                    && embed_within_limits(&sent@[k]),
        decreases pieces.len() - i,
    {
        let e = EmbedSpec {
            title: String::from_str(term),
            url: String::from_str(url),
            color: EMBED_COLOR,
            description: Some(pieces[i].clone()),
            fields: Vec::new(),
            footer: requested_by_text(author),
            timestamp: None,
        };
        assert(e.fields@ =~= Seq::<crate::embed::EmbedField>::empty());
        if !embed_validates(&e) {
            return OverlaysReply::Embeds { sent, invalid: Some(e) };
        }
        sent.push(e);
        i = i + 1;
    }
    OverlaysReply::Embeds { sent, invalid: None }
}

/// The text each overlay embed carries.
pub open spec fn description_of(e: EmbedSpec) -> Seq<char> {
    match e.description {
        Some(d) => d@,
        None => Seq::empty(),
    }
}

/// When every embed of a reply passes Discord's limits, the embeds together
/// carry the whole result text, in order, and none exceeds `CHUNK_BYTES`.
pub proof fn law_overlay_embeds_carry_all_results(
    term: Seq<char>,
    url: Seq<char>,
    author: Seq<char>,
    entries: Seq<Seq<char>>,
    sent: Seq<EmbedSpec>,
)
    requires
        sent.len() == chunks(results_text(entries)).len(),
        forall|i: int|
            0 <= i < sent.len() ==> is_overlay_embed(
                &#[trigger] sent[i],
                term,
                url,
                author,
                chunks(results_text(entries))[i],
            ),
    ensures
        sent.map_values(|e: EmbedSpec| description_of(e)).flatten() == results_text(entries),
        forall|i: int|
            0 <= i < sent.len() ==> utf8_len(description_of(#[trigger] sent[i])) <= CHUNK_BYTES,
{
    let cs = chunks(results_text(entries));
    law_chunks_rebuild_text(results_text(entries));
    assert(sent.map_values(|e: EmbedSpec| description_of(e)) =~= cs);
    assert forall|i: int| 0 <= i < sent.len() implies utf8_len(description_of(#[trigger] sent[i]))
        <= CHUNK_BYTES by {
        assert(description_of(sent[i]) == cs[i]);
    }
}

/// A result entry `c/n d`, with a category `c` free of `/` and spaces and a
/// name `n` free of spaces, is a hit exactly when the term occurs in the
/// name `n` (never because of the category or the description), and then it
/// reads as package `c/n` with description `d`.
pub proof fn law_hit_matches_package_name(
    c: Seq<char>,
    n: Seq<char>,
    d: Seq<char>,
    term: Seq<char>,
)
    requires
        forall|k: int| 0 <= k < c.len() ==> #[trigger] c[k] != '/' && c[k] != ' ',
        forall|k: int| 0 <= k < n.len() ==> #[trigger] n[k] != ' ',
    ensures
        (parse_hit_spec(c + seq!['/'] + n + seq![' '] + d, term) is Some) == contains_text(
            n,
            term,
        ),
        contains_text(n, term) ==> parse_hit_spec(c + seq!['/'] + n + seq![' '] + d, term)
            == Some(
            (
                c + seq!['/'] + n,
                "http://gpo.zugaina.org/"@ + (c + seq!['/'] + n),
                "**["@ + (c + seq!['/'] + n) + "](http://gpo.zugaina.org/"@ + (c + seq!['/']
                    + n) + ")** "@ + d,
            ),
        ),
{
    let atom = c + seq!['/'] + n;
    let text = atom + seq![' '] + d;
    let i = atom.len() as int;
    assert forall|k: int| 0 <= k < i implies #[trigger] text[k] != ' ' by {
        assert(text[k] == atom[k]);
        if k < c.len() {
            assert(atom[k] == c[k]);
        } else if k > c.len() {
            assert(atom[k] == n[k - c.len() - 1]);
        }
    }
    assert(text[i] == ' ');
    crate::text::lemma_index_of_exact(text, ' ', i);
    assert(text.take(i) =~= atom);
    assert(text.skip(i + 1) =~= d);
    assert forall|k: int| 0 <= k < c.len() implies #[trigger] atom[k] != '/' by {
        assert(atom[k] == c[k]);
    }
    assert(atom[c.len() as int] == '/');
    crate::text::lemma_index_of_exact(atom, '/', c.len() as int);
    assert(atom.skip(c.len() as int + 1) =~= n);
}

/// Total number of characters of `parts`.
pub open spec fn total_len(parts: Seq<Seq<char>>) -> nat
    decreases parts.len(),
{
    if parts.len() == 0 {
        0
    } else {
        total_len(parts.drop_last()) + parts.last().len()
    }
}

/// Every part occurs in the joined text.
pub proof fn lemma_join_contains(parts: Seq<Seq<char>>, sep: Seq<char>, i: int)
    requires
        0 <= i < parts.len(),
    ensures
        contains_text(join(parts, sep), parts[i]),
    decreases parts.len(),
{
    let j = join(parts, sep);
    let e = parts[i];
    if parts.len() == 1 {
        assert(j == parts[0]);
        let z: int = 0;
        assert(j.subrange(z, z + e.len()) =~= e);
        assert(contains_text(j, e));
    } else {
        let front = join(parts.drop_last(), sep);
        assert(j == front + sep + parts.last());
        if i == parts.len() - 1 {
            let p: int = (front.len() + sep.len()) as int;
            assert(e == parts.last());
            assert(j.subrange(p, p + e.len()) =~= e);
            assert(contains_text(j, e));
        } else {
            lemma_join_contains(parts.drop_last(), sep, i);
            assert(parts.drop_last()[i] == e);
            let p = choose|p: int|
                0 <= p && p + e.len() <= front.len() && #[trigger] front.subrange(
                    p,
                    p + e.len(),
                ) == e;
            assert(j.subrange(p, p + e.len()) =~= front.subrange(p, p + e.len()));
            assert(contains_text(j, e));
        }
    }
}

/// The joined text is as long as the parts and the separators between them.
pub proof fn lemma_join_len(parts: Seq<Seq<char>>, sep: Seq<char>)
    requires
        parts.len() > 0,
    ensures
        join(parts, sep).len() == total_len(parts) + sep.len() * (parts.len() - 1),
    decreases parts.len(),
{
    if parts.len() == 1 {
        assert(parts.drop_last().len() == 0);
    } else {
        lemma_join_len(parts.drop_last(), sep);
        assert(sep.len() * (parts.len() - 1) == sep.len() * (parts.len() - 2) + sep.len())
            by (nonlinear_arith);
    }
}

/// The result text leaves no package out and adds nothing but the blank
/// lines between entries: every entry occurs in it, and it is as long as
/// the entries plus two line feeds between each pair of neighbours.
pub proof fn law_results_text_keeps_every_entry(entries: Seq<Seq<char>>)
    ensures
        forall|i: int|
            0 <= i < entries.len() ==> contains_text(results_text(entries), #[trigger] entries[i]),
        entries.len() > 0 ==> results_text(entries).len() == total_len(entries) + 2 * (
        entries.len() - 1),
        entries.len() == 0 ==> results_text(entries).len() == 0,
{
    reveal_strlit("\n\n");
    assert forall|i: int| 0 <= i < entries.len() implies contains_text(
        results_text(entries),
        #[trigger] entries[i],
    ) by {
        lemma_join_contains(entries, "\n\n"@, i);
    }
    if entries.len() > 0 {
        lemma_join_len(entries, "\n\n"@);
    }
}

/// The search reads as many further pages as the pager announces (its links
/// counted twice) up to seven; beyond that it reads thirty, never fewer
/// pages than announced up to thirty, and never more than thirty.
pub proof fn law_pages_follow_pager(links: nat)
    ensures
        pages_to_read(links) <= 30,
        links / 2 <= 30 ==> pages_to_read(links) >= links / 2,
        links / 2 <= 7 ==> pages_to_read(links) == links / 2,
{
}

} // verus!
