//! Text primitives over the characters of a message: Unicode whitespace,
//! whitespace-separated tokens and UTF-8 byte widths.

use vstd::prelude::*;

verus! {

/// Unicode `White_Space`, the set that `char::is_whitespace` tests.
pub open spec fn is_ws(c: char) -> bool {
    let u = c as u32;
    ||| 0x09 <= u <= 0x0D
    ||| u == 0x20
    ||| u == 0x85
    ||| u == 0xA0
    ||| u == 0x1680
    ||| 0x2000 <= u <= 0x200A
    ||| u == 0x2028
    ||| u == 0x2029
    ||| u == 0x202F
    ||| u == 0x205F
    ||| u == 0x3000
}

/// Whether `c` is Unicode whitespace.
pub fn is_whitespace(c: char) -> (r: bool)
    ensures
        r == is_ws(c),
{
    let u = c as u32;
    (0x09 <= u && u <= 0x0D) || u == 0x20 || u == 0x85 || u == 0xA0 || u == 0x1680 || (0x2000
        <= u && u <= 0x200A) || u == 0x2028 || u == 0x2029 || u == 0x202F || u == 0x205F || u
        == 0x3000
}

/// The characters that split a text into words.
#[derive(Clone, Copy)]
pub enum Separators {
    /// Any Unicode whitespace, as `split_whitespace` uses.
    Whitespace,
    /// Space, line feed and tab only.
    SpaceTabNewline,
}

pub open spec fn is_separator(kind: Separators, c: char) -> bool {
    match kind {
        Separators::Whitespace => is_ws(c),
        Separators::SpaceTabNewline => c == ' ' || c == '\n' || c == '\t',
    }
}

/// Whether `c` separates words of kind `kind`.
pub fn separates(kind: Separators, c: char) -> (r: bool)
    ensures
        r == is_separator(kind, c),
{
    match kind {
        Separators::Whitespace => is_whitespace(c),
        Separators::SpaceTabNewline => c == ' ' || c == '\n' || c == '\t',
    }
}

/// Number of leading characters of `s` before the first separator.
pub open spec fn word_len(s: Seq<char>, kind: Separators) -> nat
    decreases s.len(),
{
    if s.len() == 0 || is_separator(kind, s[0]) {
        0
    } else {
        1 + word_len(s.drop_first(), kind)
    }
}

/// The non-empty runs of non-separators of `s`, in order (what splitting at
/// the separators and dropping empty pieces yields).
pub open spec fn pieces(s: Seq<char>, kind: Separators) -> Seq<Seq<char>>
    decreases s.len(),
{
    if s.len() == 0 {
        Seq::empty()
    } else if is_separator(kind, s[0]) {
        pieces(s.drop_first(), kind)
    } else {
        proof {
            lemma_word_len_bounds(s, kind);
        }
        seq![s.take(word_len(s, kind) as int)] + pieces(s.skip(word_len(s, kind) as int), kind)
    }
}

/// The whitespace-separated words of `s`, in order (what `split_whitespace` yields).
pub open spec fn tokens(s: Seq<char>) -> Seq<Seq<char>> {
    pieces(s, Separators::Whitespace)
}

pub proof fn lemma_word_len_bounds(s: Seq<char>, kind: Separators)
    ensures
        word_len(s, kind) <= s.len(),
        s.len() > 0 && !is_separator(kind, s[0]) ==> word_len(s, kind) >= 1,
    decreases s.len(),
{
    if s.len() > 0 && !is_separator(kind, s[0]) {
        lemma_word_len_bounds(s.drop_first(), kind);
    }
}

/// Proves that a run of `n` non-whitespace characters ended by whitespace
/// (or by the end of `s`) is exactly the leading word of `s`.
pub proof fn lemma_word_len_exact(s: Seq<char>, kind: Separators, n: int)
    requires
        0 <= n <= s.len(),
        forall|k: int| 0 <= k < n ==> !is_separator(kind, #[trigger] s[k]),
        n == s.len() || is_separator(kind, s[n]),
    ensures
        word_len(s, kind) == n,
    decreases n,
{
    if n > 0 {
        let t = s.drop_first();
        assert forall|k: int| 0 <= k < n - 1 implies !is_separator(kind, #[trigger] t[k]) by {
            assert(t[k] == s[k + 1]);
        }
        if n < s.len() {
            assert(t[n - 1] == s[n]);
        }
        lemma_word_len_exact(t, kind, n - 1);
    }
}

/// The characters of `s`, in order.
pub fn chars_of(s: &str) -> (v: Vec<char>)
    ensures
        v@ == s@,
{
    broadcast use vstd::string::group_string_axioms;

    let mut v: Vec<char> = Vec::new();
    let mut iter = s.chars();
    loop
        invariant
            v@ + vstd::std_specs::iter::IteratorSpec::remaining(&iter) == s@,
            vstd::std_specs::iter::IteratorSpec::obeys_prophetic_iter_laws(&iter),
            vstd::std_specs::iter::IteratorSpec::decrease(&iter) is Some,
        ensures
            v@ == s@,
        decreases vstd::std_specs::iter::IteratorSpec::decrease(&iter)->0,
    {
        match iter.next() {
            Some(c) => {
                v.push(c);
                assert(v@ + vstd::std_specs::iter::IteratorSpec::remaining(&iter) =~= s@);
            },
            None => {
                assert(v@ =~= s@);
                break;
            },
        }
    }
    v
}

/// Finds the first word of `cs[from..]` between separators of kind `kind`:
/// its start and end index, or `None` when only separators are left.
pub fn next_piece(cs: &Vec<char>, from: usize, kind: Separators) -> (r: Option<(usize, usize)>)
    requires
        from <= cs.len(),
    ensures
        match r {
            None => pieces(cs@.skip(from as int), kind) == Seq::<Seq<char>>::empty(),
            Some((a, b)) => {
                &&& from <= a < b <= cs.len()
                &&& pieces(cs@.skip(from as int), kind) == seq![cs@.subrange(a as int, b as int)]
                    + pieces(cs@.skip(b as int), kind)
            },
        },
{
    let n = cs.len();
    let mut i = from;
    while i < n && separates(kind, cs[i])
        invariant
            from <= i <= n,
            n == cs.len(),
            pieces(cs@.skip(from as int), kind) == pieces(cs@.skip(i as int), kind),
        decreases n - i,
    {
        assert(cs@.skip(i as int).drop_first() =~= cs@.skip(i + 1));
        i = i + 1;
    }
    if i == n {
        assert(cs@.skip(i as int) =~= Seq::<char>::empty());
        return None;
    }
    let mut j = i + 1;
    while j < n && !separates(kind, cs[j])
        invariant
            i < j <= n,
            n == cs.len(),
            !is_separator(kind, cs@[i as int]),
            forall|k: int| i <= k < j ==> !is_separator(kind, #[trigger] cs@[k]),
        decreases n - j,
    {
        j = j + 1;
    }
    let ghost rest = cs@.skip(i as int);
    proof {
        assert forall|k: int| 0 <= k < j - i implies !is_separator(kind, #[trigger] rest[k]) by {
            assert(rest[k] == cs@[i + k]);
        }
        if j < n {
            assert(rest[j - i] == cs@[j as int]);
        }
        lemma_word_len_exact(rest, kind, j - i);
        assert(rest.take(j - i) =~= cs@.subrange(i as int, j as int));
        assert(rest.skip(j - i) =~= cs@.skip(j as int));
    }
    Some((i, j))
}

/// Finds the first whitespace-separated word of `cs[from..]`.
pub fn next_token(cs: &Vec<char>, from: usize) -> (r: Option<(usize, usize)>)
    requires
        from <= cs.len(),
    ensures
        match r {
            None => tokens(cs@.skip(from as int)) == Seq::<Seq<char>>::empty(),
            Some((a, b)) => {
                &&& from <= a < b <= cs.len()
                &&& tokens(cs@.skip(from as int)) == seq![cs@.subrange(a as int, b as int)]
                    + tokens(cs@.skip(b as int))
            },
        },
{
    next_piece(cs, from, Separators::Whitespace)
}


/// Number of bytes that the UTF-8 encoding of `c` takes.
pub open spec fn char_width(c: char) -> nat {
    let u = c as u32;
    if u < 0x80 {
        1
    } else if u < 0x800 {
        2
    } else if u < 0x10000 {
        3
    } else {
        4
    }
}

/// Number of bytes of the UTF-8 encoding of `s` (what `str::len` returns).
pub open spec fn utf8_len(s: Seq<char>) -> nat
    decreases s.len(),
{
    if s.len() == 0 {
        0
    } else {
        utf8_len(s.drop_last()) + char_width(s.last())
    }
}

/// UTF-8 width of `c`.
pub fn char_width_of(c: char) -> (w: usize)
    ensures
        w == char_width(c),
        1 <= w <= 4,
{
    let u = c as u32;
    if u < 0x80 {
        1
    } else if u < 0x800 {
        2
    } else if u < 0x10000 {
        3
    } else {
        4
    }
}

pub proof fn lemma_utf8_len_bounds(s: Seq<char>)
    ensures
        s.len() <= utf8_len(s) <= 4 * s.len(),
        s.len() == 1 ==> utf8_len(s) == char_width(s[0]),
    decreases s.len(),
{
    if s.len() > 0 {
        lemma_utf8_len_bounds(s.drop_last());
    }
}

/// The byte length of a prefix grows by the width of the next character.
pub proof fn lemma_utf8_len_take(s: Seq<char>, k: int)
    requires
        0 <= k < s.len(),
    ensures
        utf8_len(s.take(k + 1)) == utf8_len(s.take(k)) + char_width(s[k]),
{
    assert(s.take(k + 1).drop_last() =~= s.take(k));
}

/// Byte length of a concatenation.
pub proof fn lemma_utf8_len_concat(a: Seq<char>, b: Seq<char>)
    ensures
        utf8_len(a + b) == utf8_len(a) + utf8_len(b),
    decreases b.len(),
{
    if b.len() == 0 {
        assert(a + b =~= a);
    } else {
        assert((a + b).drop_last() =~= a + b.drop_last());
        lemma_utf8_len_concat(a, b.drop_last());
    }
}

/// A word qualifies as a command argument when it is longer than one byte and
/// is not the command itself.
pub open spec fn is_argument_word(t: Seq<char>, cmd: Seq<char>) -> bool {
    utf8_len(t) > 1 && t != cmd
}

/// The first qualifying argument word among `toks`.
pub open spec fn first_argument(toks: Seq<Seq<char>>, cmd: Seq<char>) -> Option<Seq<char>>
    decreases toks.len(),
{
    if toks.len() == 0 {
        None
    } else if is_argument_word(toks[0], cmd) {
        Some(toks[0])
    } else {
        first_argument(toks.drop_first(), cmd)
    }
}

/// The argument of command `cmd` in `content`: its first word that is longer
/// than one byte and differs from `cmd`, or the empty text when there is none.
pub open spec fn argument_of(content: Seq<char>, cmd: Seq<char>) -> Seq<char> {
    match first_argument(tokens(content), cmd) {
        Some(t) => t,
        None => Seq::empty(),
    }
}

/// Whether `cs[a..b]` equals `w`.
pub fn range_equals(cs: &Vec<char>, a: usize, b: usize, w: &Vec<char>) -> (r: bool)
    requires
        a <= b <= cs.len(),
    ensures
        r == (cs@.subrange(a as int, b as int) == w@),
{
    if b - a != w.len() {
        return false;
    }
    let mut k: usize = 0;
    while k < w.len()
        invariant
            a <= b <= cs.len(),
            b - a == w.len(),
            k <= w.len(),
            forall|m: int| 0 <= m < k ==> cs@[a + m] == w@[m],
        decreases w.len() - k,
    {
        if cs[a + k] != w[k] {
            assert(cs@.subrange(a as int, b as int)[k as int] != w@[k as int]);
            return false;
        }
        k = k + 1;
    }
    assert(cs@.subrange(a as int, b as int) =~= w@);
    true
}

/// Locates the argument word of command `cmd` in `cs`: the index range of the
/// first word longer than one byte that differs from `cmd`.
pub fn find_argument(cs: &Vec<char>, cmd: &Vec<char>) -> (r: Option<(usize, usize)>)
    ensures
        match r {
            None => first_argument(tokens(cs@), cmd@) is None,
            Some((a, b)) => a < b <= cs.len() && first_argument(tokens(cs@), cmd@) == Some(
                cs@.subrange(a as int, b as int),
            ),
        },
{
    let mut pos: usize = 0;
    assert(cs@.skip(0) =~= cs@);
    loop
        invariant
            pos <= cs.len(),
            first_argument(tokens(cs@), cmd@) == first_argument(tokens(cs@.skip(pos as int)), cmd@),
        decreases cs.len() - pos,
    {
        match next_token(cs, pos) {
            None => {
                return None;
            },
            Some((a, b)) => {
                let ghost t = cs@.subrange(a as int, b as int);
                let ghost toks = tokens(cs@.skip(pos as int));
                proof {
                    assert(toks[0] == t);
                    assert(toks.drop_first() =~= tokens(cs@.skip(b as int)));
                    lemma_utf8_len_bounds(t);
                }
                let long = b - a >= 2 || char_width_of(cs[a]) >= 2;
                assert(long == (utf8_len(t) > 1)) by {
                    assert(t[0] == cs@[a as int]);
                }
                if long && !range_equals(cs, a, b, cmd) {
                    return Some((a, b));
                }
                pos = b;
            },
        }
    }
}

/// The argument of command `cmd` in `content` (see `argument_of`).
pub fn argument(content: &str, cmd: &str) -> (r: String)
    ensures
        r@ == argument_of(content@, cmd@),
{
    let cs = chars_of(content);
    let cmd_cs = chars_of(cmd);
    match find_argument(&cs, &cmd_cs) {
        Some((a, b)) => content.substring_char(a, b).to_owned(),
        None => String::new(),
    }
}


/// Index of the first `c` in `s`.
pub open spec fn index_of(s: Seq<char>, c: char) -> Option<nat>
    decreases s.len(),
{
    if s.len() == 0 {
        None
    } else if s[0] == c {
        Some(0)
    } else {
        match index_of(s.drop_first(), c) {
            Some(i) => Some(i + 1),
            None => None,
        }
    }
}

pub proof fn lemma_index_of_exact(s: Seq<char>, c: char, n: int)
    requires
        0 <= n <= s.len(),
        forall|k: int| 0 <= k < n ==> #[trigger] s[k] != c,
    ensures
        n < s.len() && s[n] == c ==> index_of(s, c) == Some(n as nat),
        n == s.len() ==> index_of(s, c) is None,
    decreases n,
{
    if n > 0 {
        let t = s.drop_first();
        assert forall|k: int| 0 <= k < n - 1 implies #[trigger] t[k] != c by {
            assert(t[k] == s[k + 1]);
        }
        if n < s.len() {
            assert(t[n - 1] == s[n]);
        }
        lemma_index_of_exact(t, c, n - 1);
    }
}

/// Index in `cs` of the first `c` within `cs[a..b]`.
pub fn find_char(cs: &Vec<char>, a: usize, b: usize, c: char) -> (r: Option<usize>)
    requires
        a <= b <= cs.len(),
    ensures
        match r {
            Some(k) => a <= k < b && index_of(cs@.subrange(a as int, b as int), c) == Some(
                (k - a) as nat,
            ),
            None => index_of(cs@.subrange(a as int, b as int), c) is None,
        },
{
    let ghost s = cs@.subrange(a as int, b as int);
    let mut k = a;
    while k < b
        invariant
            a <= k <= b <= cs.len(),
            s == cs@.subrange(a as int, b as int),
            forall|m: int| 0 <= m < k - a ==> #[trigger] s[m] != c,
        decreases b - k,
    {
        if cs[k] == c {
            proof {
                lemma_index_of_exact(s, c, k - a);
            }
            return Some(k);
        }
        assert(s[k - a] == cs@[k as int]);
        k = k + 1;
    }
    proof {
        lemma_index_of_exact(s, c, k - a);
    }
    None
}

/// `needle` occurs in `hay`.
pub open spec fn contains_text(hay: Seq<char>, needle: Seq<char>) -> bool {
    exists|i: int|
        0 <= i && i + needle.len() <= hay.len() && #[trigger] hay.subrange(i, i + needle.len())
            == needle
}

/// Whether `w` occurs within `cs[a..b]`.
pub fn contains_in(cs: &Vec<char>, a: usize, b: usize, w: &Vec<char>) -> (r: bool)
    requires
        a <= b <= cs.len(),
    ensures
        r == contains_text(cs@.subrange(a as int, b as int), w@),
{
    let ghost hay = cs@.subrange(a as int, b as int);
    if w.len() > b - a {
        return false;
    }
    let last = b - w.len();
    let mut i = a;
    loop
        invariant
            a <= i <= last,
            last + w.len() == b,
            b <= cs.len(),
            hay == cs@.subrange(a as int, b as int),
            forall|j: int|
                0 <= j < i - a ==> #[trigger] hay.subrange(j, j + w@.len()) != w@,
        decreases last - i,
    {
        assert(hay.subrange(i - a, i - a + w@.len()) =~= cs@.subrange(i as int, i + w.len()));
        if range_equals(cs, i, i + w.len(), w) {
            return true;
        }
        if i == last {
            return false;
        }
        i = i + 1;
    }
}

/// `parts` joined with `sep` between neighbours.
pub open spec fn join(parts: Seq<Seq<char>>, sep: Seq<char>) -> Seq<char>
    decreases parts.len(),
{
    if parts.len() == 0 {
        Seq::empty()
    } else if parts.len() == 1 {
        parts[0]
    } else {
        join(parts.drop_last(), sep) + sep + parts.last()
    }
}

/// The texts of `v`.
pub open spec fn views(v: Seq<String>) -> Seq<Seq<char>> {
    v.map_values(|p: String| p@)
}

/// `parts` joined with `sep`, as `[String]::join` does.
pub fn join_strings(parts: &Vec<String>, sep: &str) -> (r: String)
    ensures
        r@ == join(views(parts@), sep@),
{
    let mut r = String::new();
    let ghost all = views(parts@);
    let mut i: usize = 0;
    assert(all.take(0) =~= Seq::<Seq<char>>::empty());
    while i < parts.len()
        invariant
            i <= parts.len(),
            all == views(parts@),
            r@ == join(all.take(i as int), sep@),
        decreases parts.len() - i,
    {
        assert(all.take(i + 1).drop_last() =~= all.take(i as int));
        assert(all.take(i + 1).last() == parts@[i as int]@);
        if i == 0 {
            r.append(parts[i].as_str());
            assert(r@ =~= join(all.take(1), sep@));
        } else {
            r.append(sep);
            r.append(parts[i].as_str());
        }
        i = i + 1;
    }
    assert(all.take(parts.len() as int) =~= all);
    r
}

/// Most bytes a message chunk may take.
pub const CHUNK_BYTES: usize = 4000;

/// Number of leading characters of `s` whose encoding fits in `budget` bytes.
pub open spec fn fit_len(s: Seq<char>, budget: int) -> nat
    decreases s.len(),
{
    if s.len() == 0 || char_width(s[0]) > budget {
        0
    } else {
        1 + fit_len(s.drop_first(), budget - char_width(s[0]))
    }
}

pub proof fn lemma_fit_len_bounds(s: Seq<char>, budget: int)
    ensures
        fit_len(s, budget) <= s.len(),
        s.len() > 0 && budget >= 4 ==> fit_len(s, budget) >= 1,
    decreases s.len(),
{
    if s.len() > 0 && char_width(s[0]) <= budget {
        lemma_fit_len_bounds(s.drop_first(), budget - char_width(s[0]));
    }
}

/// `s` cut into consecutive pieces, each the longest prefix of the rest that
/// fits in `CHUNK_BYTES` bytes.
pub open spec fn chunks(s: Seq<char>) -> Seq<Seq<char>>
    decreases s.len(),
{
    if s.len() == 0 {
        Seq::empty()
    } else {
        proof {
            lemma_fit_len_bounds(s, CHUNK_BYTES as int);
        }
        let k = fit_len(s, CHUNK_BYTES as int) as int;
        seq![s.take(k)] + chunks(s.skip(k))
    }
}

/// The byte length of a non-empty text is the width of its first character
/// plus that of the rest.
pub proof fn lemma_utf8_len_first(s: Seq<char>)
    requires
        s.len() > 0,
    ensures
        utf8_len(s) == char_width(s[0]) + utf8_len(s.drop_first()),
{
    assert(s =~= seq![s[0]] + s.drop_first());
    lemma_utf8_len_concat(seq![s[0]], s.drop_first());
    lemma_utf8_len_bounds(seq![s[0]]);
}

pub proof fn lemma_fit_len_exact(s: Seq<char>, budget: int, k: int)
    requires
        0 <= k <= s.len(),
        utf8_len(s.take(k)) <= budget,
        k == s.len() || utf8_len(s.take(k)) + char_width(s[k]) > budget,
    ensures
        fit_len(s, budget) == k,
    decreases k,
{
    if k == 0 {
        assert(s.take(0) =~= Seq::<char>::empty());
    } else {
        let t = s.drop_first();
        lemma_utf8_len_first(s.take(k));
        assert(s.take(k).drop_first() =~= t.take(k - 1));
        assert(s.take(k)[0] == s[0]);
        if k < s.len() {
            assert(t[k - 1] == s[k]);
        }
        lemma_fit_len_exact(t, budget - char_width(s[0]), k - 1);
    }
}

/// `text` cut into chunks of at most `CHUNK_BYTES` bytes (see `chunks`).
pub fn chunk_text(text: &str) -> (r: Vec<String>)
    ensures
        views(r@) == chunks(text@),
{
    let cs = chars_of(text);
    let n = cs.len();
    let mut r: Vec<String> = Vec::new();
    let mut start: usize = 0;
    assert(cs@.skip(0) =~= cs@);
    while start < n
        invariant
            start <= n,
            n == cs.len(),
            cs@ == text@,
            chunks(text@) == views(r@) + chunks(cs@.skip(start as int)),
        decreases n - start,
    {
        let ghost rest = cs@.skip(start as int);
        let mut j = start;
        let mut used: usize = 0;
        assert(rest.take(0) =~= Seq::<char>::empty());
        while j < n && used + char_width_of(cs[j]) <= CHUNK_BYTES
            invariant
                start <= j <= n,
                n == cs.len(),
                rest == cs@.skip(start as int),
                used <= CHUNK_BYTES,
                used == utf8_len(rest.take(j - start)),
            decreases n - j,
        {
            proof {
                lemma_utf8_len_take(rest, j - start);
            }
            used = used + char_width_of(cs[j]);
            j = j + 1;
        }
        proof {
            if j < n {
                assert(rest[j - start] == cs@[j as int]);
            }
            lemma_fit_len_exact(rest, CHUNK_BYTES as int, j - start);
            lemma_fit_len_bounds(rest, CHUNK_BYTES as int);
            assert(rest.take(j - start) =~= cs@.subrange(start as int, j as int));
            assert(rest.skip(j - start) =~= cs@.skip(j as int));
        }
        let piece = text.substring_char(start, j).to_owned();
        let ghost before = r@;
        r.push(piece);
        assert(views(r@) =~= views(before).push(piece@));
        start = j;
    }
    assert(cs@.skip(n as int) =~= Seq::<char>::empty());
    assert(views(r@) + Seq::<Seq<char>>::empty() =~= views(r@));
    r
}

/// Cutting a text into chunks loses nothing: the chunks, put back together,
/// are the text; each chunk is non-empty, fits in `CHUNK_BYTES` bytes, and
/// every chunk but the last is as long as fits.
pub proof fn law_chunks_rebuild_text(s: Seq<char>)
    ensures
        chunks(s).flatten() == s,
        forall|i: int|
            0 <= i < chunks(s).len() ==> (#[trigger] chunks(s)[i]).len() > 0 && utf8_len(
                chunks(s)[i],
            ) <= CHUNK_BYTES,
        forall|i: int|
            0 <= i < chunks(s).len() - 1 ==> utf8_len(#[trigger] chunks(s)[i]) + char_width(
                chunks(s)[i + 1][0],
            ) > CHUNK_BYTES,
    decreases s.len(),
{
    if s.len() > 0 {
        lemma_fit_len_bounds(s, CHUNK_BYTES as int);
        let k = fit_len(s, CHUNK_BYTES as int) as int;
        let rest = s.skip(k);
        law_chunks_rebuild_text(rest);
        lemma_fit_prefix_fits(s, CHUNK_BYTES as int);
        let c = chunks(s);
        assert(c.drop_first() =~= chunks(rest));
        assert(s.take(k) + rest =~= s);
        assert forall|i: int| 0 <= i < c.len() - 1 implies utf8_len(#[trigger] c[i])
            + char_width(c[i + 1][0]) > CHUNK_BYTES by {
            if i > 0 {
                assert(c[i] == chunks(rest)[i - 1]);
                assert(c[i + 1] == chunks(rest)[i]);
            } else {
                assert(c[1] == chunks(rest)[0]);
                assert(chunks(rest)[0][0] == rest[0]);
                assert(rest[0] == s[k]);
            }
        }
        assert forall|i: int| 0 <= i < c.len() implies (#[trigger] c[i]).len() > 0 && utf8_len(
            c[i],
        ) <= CHUNK_BYTES by {
            if i > 0 {
                assert(c[i] == chunks(rest)[i - 1]);
            }
        }
    }
}

/// The prefix that `fit_len` picks fits, and the next character would not.
pub proof fn lemma_fit_prefix_fits(s: Seq<char>, budget: int)
    ensures
        utf8_len(s.take(fit_len(s, budget) as int)) <= budget || fit_len(s, budget) == 0,
        fit_len(s, budget) < s.len() ==> utf8_len(s.take(fit_len(s, budget) as int))
            + char_width(s[fit_len(s, budget) as int]) > budget,
    decreases s.len(),
{
    lemma_fit_len_bounds(s, budget);
    let k = fit_len(s, budget) as int;
    if k == 0 {
        assert(s.take(0) =~= Seq::<char>::empty());
    } else {
        let t = s.drop_first();
        let b2 = budget - char_width(s[0]);
        lemma_fit_prefix_fits(t, b2);
        lemma_utf8_len_first(s.take(k));
        assert(s.take(k).drop_first() =~= t.take(k - 1));
        if k < s.len() {
            assert(t[k - 1] == s[k]);
        }
        if k - 1 == 0 {
            assert(t.take(0) =~= Seq::<char>::empty());
        }
    }
}


/// `&s[n..]` for a byte offset `n`: the characters after the first `n`
/// bytes, or `None` when `n` lies past the end or inside a character (where
/// slicing a `str` panics).
pub open spec fn skip_bytes(s: Seq<char>, n: int) -> Option<Seq<char>>
    decreases s.len(),
{
    if n == 0 {
        Some(s)
    } else if s.len() == 0 || n < char_width(s[0]) {
        None
    } else {
        skip_bytes(s.drop_first(), n - char_width(s[0]))
    }
}


/// Every piece of a text is non-empty and holds no separator.
pub proof fn law_pieces_are_words(s: Seq<char>, kind: Separators)
    ensures
        forall|i: int|
            0 <= i < pieces(s, kind).len() ==> (#[trigger] pieces(s, kind)[i]).len() > 0 && forall|
                k: int,
            | 0 <= k < pieces(s, kind)[i].len() ==> !is_separator(kind, pieces(s, kind)[i][k]),
    decreases s.len(),
{
    if s.len() > 0 {
        if is_separator(kind, s[0]) {
            law_pieces_are_words(s.drop_first(), kind);
            assert(pieces(s, kind) == pieces(s.drop_first(), kind));
        } else {
            lemma_word_len_bounds(s, kind);
            lemma_word_prefix(s, kind);
            let w = word_len(s, kind) as int;
            law_pieces_are_words(s.skip(w), kind);
            let p = pieces(s, kind);
            assert forall|i: int| 0 <= i < p.len() implies (#[trigger] p[i]).len() > 0 && forall|
                k: int,
            | 0 <= k < p[i].len() ==> !is_separator(kind, p[i][k]) by {
                if i > 0 {
                    assert(p[i] == pieces(s.skip(w), kind)[i - 1]);
                } else {
                    assert(p[0] == s.take(w));
                    assert forall|k: int| 0 <= k < p[0].len() implies !is_separator(
                        kind,
                        p[0][k],
                    ) by {
                        assert(p[0][k] == s[k]);
                    }
                }
            }
        }
    }
}

/// The leading word holds no separator.
pub proof fn lemma_word_prefix(s: Seq<char>, kind: Separators)
    ensures
        forall|k: int| 0 <= k < word_len(s, kind) ==> !is_separator(kind, #[trigger] s[k]),
    decreases s.len(),
{
    lemma_word_len_bounds(s, kind);
    if s.len() > 0 && !is_separator(kind, s[0]) {
        lemma_word_prefix(s.drop_first(), kind);
        assert forall|k: int| 0 <= k < word_len(s, kind) implies !is_separator(
            kind,
            #[trigger] s[k],
        ) by {
            if k > 0 {
                assert(s[k] == s.drop_first()[k - 1]);
            }
        }
    }
}

/// The argument of a command is one of the words of the message, longer
/// than one byte and different from the command.
pub proof fn law_argument_is_a_word(content: Seq<char>, cmd: Seq<char>)
    ensures
        argument_of(content, cmd).len() > 0 ==> {
            &&& tokens(content).contains(argument_of(content, cmd))
            &&& utf8_len(argument_of(content, cmd)) > 1
            &&& argument_of(content, cmd) != cmd
        },
{
    lemma_first_argument_member(tokens(content), cmd);
}

pub proof fn lemma_first_argument_member(toks: Seq<Seq<char>>, cmd: Seq<char>)
    ensures
        first_argument(toks, cmd) matches Some(t) ==> toks.contains(t) && is_argument_word(t, cmd),
    decreases toks.len(),
{
    if toks.len() > 0 && !is_argument_word(toks[0], cmd) {
        lemma_first_argument_member(toks.drop_first(), cmd);
        if let Some(t) = first_argument(toks.drop_first(), cmd) {
            let j = choose|j: int| 0 <= j < toks.drop_first().len() && toks.drop_first()[j] == t;
            assert(toks[j + 1] == t);
        }
    } else if toks.len() > 0 {
        assert(toks[0] == toks[0]);
    }
}


/// Skipping the bytes of a prefix leaves what follows it.
pub proof fn lemma_skip_bytes_prefix(a: Seq<char>, b: Seq<char>)
    ensures
        skip_bytes(a + b, utf8_len(a) as int) == Some(b),
    decreases a.len(),
{
    if a.len() == 0 {
        assert(a + b =~= b);
    } else {
        lemma_utf8_len_first(a);
        lemma_skip_bytes_prefix(a.drop_first(), b);
        assert((a + b).drop_first() =~= a.drop_first() + b);
        assert((a + b)[0] == a[0]);
    }
}

/// A word followed by a separator is the first piece; the pieces after it
/// are those of the rest.
pub proof fn lemma_pieces_lead_word(w: Seq<char>, c: char, rest: Seq<char>, kind: Separators)
    requires
        w.len() > 0,
        forall|k: int| 0 <= k < w.len() ==> !is_separator(kind, #[trigger] w[k]),
        is_separator(kind, c),
    ensures
        pieces(w + seq![c] + rest, kind) == seq![w] + pieces(rest, kind),
{
    let s = w + seq![c] + rest;
    let n = w.len() as int;
    assert forall|k: int| 0 <= k < n implies !is_separator(kind, #[trigger] s[k]) by {
        assert(s[k] == w[k]);
    }
    assert(s[n] == c);
    lemma_word_len_exact(s, kind, n);
    assert(s[0] == w[0]);
    assert(s.take(n) =~= w);
    let t = s.skip(n);
    assert(t =~= seq![c] + rest);
    assert(t[0] == c);
    assert(t.drop_first() =~= rest);
    assert(!is_separator(kind, s[0]));
    assert(pieces(s, kind) == seq![s.take(n)] + pieces(t, kind));
    assert(pieces(t, kind) == pieces(rest, kind));
}


/// A text of one-byte characters takes as many bytes as it has characters.
pub proof fn lemma_utf8_len_single_bytes(s: Seq<char>)
    requires
        forall|k: int| 0 <= k < s.len() ==> char_width(#[trigger] s[k]) == 1,
    ensures
        utf8_len(s) == s.len(),
    decreases s.len(),
{
    if s.len() > 0 {
        let t = s.drop_last();
        assert forall|k: int| 0 <= k < t.len() implies char_width(#[trigger] t[k]) == 1 by {
            assert(t[k] == s[k]);
        }
        lemma_utf8_len_single_bytes(t);
    }
}

/// On a text of one-byte characters (ASCII), the chunks are the text cut
/// every `CHUNK_BYTES` bytes: all but the last are exactly that long, as
/// `as_bytes().chunks(CHUNK_BYTES)` cuts it.
pub proof fn law_ascii_chunks_are_byte_chunks(s: Seq<char>)
    requires
        forall|k: int| 0 <= k < s.len() ==> char_width(#[trigger] s[k]) == 1,
    ensures
        forall|i: int|
            0 <= i < chunks(s).len() - 1 ==> (#[trigger] chunks(s)[i]).len() == CHUNK_BYTES,
        chunks(s).len() > 0 ==> chunks(s).last().len() <= CHUNK_BYTES,
    decreases s.len(),
{
    if s.len() > 0 {
        lemma_fit_len_bounds(s, CHUNK_BYTES as int);
        lemma_fit_prefix_fits(s, CHUNK_BYTES as int);
        let k = fit_len(s, CHUNK_BYTES as int) as int;
        let head = s.take(k);
        let rest = s.skip(k);
        assert forall|j: int| 0 <= j < head.len() implies char_width(#[trigger] head[j]) == 1 by {
            assert(head[j] == s[j]);
        }
        assert forall|j: int| 0 <= j < rest.len() implies char_width(#[trigger] rest[j]) == 1 by {
            assert(rest[j] == s[k + j]);
        }
        lemma_utf8_len_single_bytes(head);
        law_ascii_chunks_are_byte_chunks(rest);
        let c = chunks(s);
        assert(c[0] == head);
        assert(c.drop_first() =~= chunks(rest));
        if k < s.len() {
            assert(char_width(s[k]) == 1);
            assert(rest.len() > 0);
        } else {
            assert(rest =~= Seq::<char>::empty());
        }
        assert forall|i: int| 0 <= i < c.len() - 1 implies (#[trigger] c[i]).len()
            == CHUNK_BYTES by {
            if i > 0 {
                assert(c[i] == chunks(rest)[i - 1]);
            }
        }
        if c.len() > 1 {
            assert(c.last() == chunks(rest).last());
        }
    }
}

/// `utf8_len` counts what vstd's UTF-8 encoding of a text holds, so it is
/// the `str::len` of the text.
pub proof fn law_utf8_len_is_encoded_len(s: Seq<char>)
    ensures
        utf8_len(s) == vstd::utf8::encode_utf8(s).len(),
    decreases s.len(),
{
    if s.len() > 0 {
        lemma_utf8_len_first(s);
        law_utf8_len_is_encoded_len(s.drop_first());
        vstd::utf8::char_is_scalar(s[0]);
    }
}

/// A word stops at a separator, unless it runs to the end.
pub proof fn lemma_word_len_stop(s: Seq<char>, kind: Separators)
    ensures
        word_len(s, kind) < s.len() ==> is_separator(kind, s[word_len(s, kind) as int]),
    decreases s.len(),
{
    if s.len() > 0 && !is_separator(kind, s[0]) {
        lemma_word_len_stop(s.drop_first(), kind);
        lemma_word_len_bounds(s.drop_first(), kind);
        if word_len(s, kind) < s.len() {
            assert(s[word_len(s, kind) as int] == s.drop_first()[word_len(s.drop_first(), kind) as int]);
        }
    }
}

/// Which separator stands between two parts of a text does not change its
/// pieces.
pub proof fn lemma_pieces_any_separator(
    a: Seq<char>,
    c1: char,
    c2: char,
    b: Seq<char>,
    kind: Separators,
)
    requires
        is_separator(kind, c1),
        is_separator(kind, c2),
    ensures
        pieces(a + seq![c1] + b, kind) == pieces(a + seq![c2] + b, kind),
    decreases a.len(),
{
    let s1 = a + seq![c1] + b;
    let s2 = a + seq![c2] + b;
    if a.len() == 0 {
        assert(s1[0] == c1);
        assert(s2[0] == c2);
        assert(s1.drop_first() =~= b);
        assert(s2.drop_first() =~= b);
        assert(pieces(s1, kind) == pieces(s1.drop_first(), kind));
        assert(pieces(s2, kind) == pieces(s2.drop_first(), kind));
    } else if is_separator(kind, a[0]) {
        assert(s1[0] == a[0]);
        assert(s2[0] == a[0]);
        assert(s1.drop_first() =~= a.drop_first() + seq![c1] + b);
        assert(s2.drop_first() =~= a.drop_first() + seq![c2] + b);
        lemma_pieces_any_separator(a.drop_first(), c1, c2, b, kind);
        assert(pieces(s1, kind) == pieces(s1.drop_first(), kind));
        assert(pieces(s2, kind) == pieces(s2.drop_first(), kind));
    } else {
        assert(s1[0] == a[0]);
        assert(s2[0] == a[0]);
        lemma_word_len_bounds(a, kind);
        lemma_word_prefix(a, kind);
        lemma_word_len_stop(a, kind);
        let w = word_len(a, kind) as int;
        assert forall|k: int| 0 <= k < w implies !is_separator(kind, #[trigger] s1[k]) by {
            assert(s1[k] == a[k]);
        }
        assert forall|k: int| 0 <= k < w implies !is_separator(kind, #[trigger] s2[k]) by {
            assert(s2[k] == a[k]);
        }
        if w < a.len() {
            assert(s1[w] == a[w]);
            assert(s2[w] == a[w]);
        } else {
            assert(s1[w] == c1);
            assert(s2[w] == c2);
        }
        lemma_word_len_exact(s1, kind, w);
        lemma_word_len_exact(s2, kind, w);
        assert(s1.take(w) =~= s2.take(w));
        assert(pieces(s1, kind) == seq![s1.take(w)] + pieces(s1.skip(w), kind));
        assert(pieces(s2, kind) == seq![s2.take(w)] + pieces(s2.skip(w), kind));
        if w < a.len() {
            assert(s1.skip(w) =~= a.skip(w) + seq![c1] + b);
            assert(s2.skip(w) =~= a.skip(w) + seq![c2] + b);
            lemma_pieces_any_separator(a.skip(w), c1, c2, b, kind);
        } else {
            let t1 = s1.skip(w);
            let t2 = s2.skip(w);
            assert(t1[0] == c1);
            assert(t2[0] == c2);
            assert(t1.drop_first() =~= b);
            assert(t2.drop_first() =~= b);
            assert(pieces(t1, kind) == pieces(b, kind));
            assert(pieces(t2, kind) == pieces(b, kind));
        }
    }
}

/// Tab, line feed, vertical tab, form feed, carriage return, next line,
/// no-break space, the Unicode spaces and the ideographic space split words
/// just as a space does: a message reads the same with any of them in place
/// of a space.
pub proof fn law_whitespace_splits_like_space(a: Seq<char>, c: char, b: Seq<char>)
    requires
        c == '\t' || c == '\n' || c == '\u{b}' || c == '\u{c}' || c == '\r' || c == '\u{85}'
            || c == '\u{a0}' || c == '\u{1680}' || ('\u{2000}' <= c <= '\u{200a}') || c
            == '\u{2028}' || c == '\u{2029}' || c == '\u{202f}' || c == '\u{205f}' || c
            == '\u{3000}',
    ensures
        tokens(a + seq![c] + b) == tokens(a + seq![' '] + b),
{
    lemma_pieces_any_separator(a, c, ' ', b, Separators::Whitespace);
}

/// Letters, digits and punctuation do not split words: a text whose
/// characters are all visible ASCII is a single word.
pub proof fn law_visible_ascii_is_one_word(w: Seq<char>)
    requires
        w.len() > 0,
        forall|k: int| 0 <= k < w.len() ==> '!' <= #[trigger] w[k] <= '~',
    ensures
        tokens(w) == seq![w],
{
    let kind = Separators::Whitespace;
    assert forall|k: int| 0 <= k < w.len() implies !is_separator(kind, #[trigger] w[k]) by {}
    lemma_word_len_exact(w, kind, w.len() as int);
    assert(w.take(w.len() as int) =~= w);
    assert(w.skip(w.len() as int) =~= Seq::<char>::empty());
    assert(pieces(w.skip(w.len() as int), kind) =~= Seq::<Seq<char>>::empty());
}

} // verus!
