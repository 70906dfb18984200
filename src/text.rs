//! Plain-text helpers: whitespace, word counts, reading time, tag display.
use vstd::prelude::*;

verus! {

/// Unicode's White_Space characters, those `char::is_whitespace` accepts.
pub open spec fn is_ws(c: char) -> bool {
    ('\t' <= c && c <= '\r') || c == ' ' || c == '\u{85}' || c == '\u{a0}' || c == '\u{1680}'
        || ('\u{2000}' <= c && c <= '\u{200a}') || c == '\u{2028}' || c == '\u{2029}' || c
        == '\u{202f}' || c == '\u{205f}' || c == '\u{3000}'
}

pub fn is_whitespace(c: char) -> (r: bool)
    ensures
        r == is_ws(c),
{
    ('\t' <= c && c <= '\r') || c == ' ' || c == '\u{85}' || c == '\u{a0}' || c == '\u{1680}'
        || ('\u{2000}' <= c && c <= '\u{200a}') || c == '\u{2028}' || c == '\u{2029}' || c
        == '\u{202f}' || c == '\u{205f}' || c == '\u{3000}'
}

/// Whether a word starts at position `i` of `s`.
pub open spec fn word_starts_at(s: Seq<char>, i: int) -> bool {
    !is_ws(s[i]) && (i == 0 || is_ws(s[i - 1]))
}

/// The number of words of `s[..n]`: maximal runs of non-whitespace.
pub open spec fn words_in(s: Seq<char>, n: int) -> nat
    decreases n,
{
    if n <= 0 {
        0
    } else {
        words_in(s, n - 1) + if word_starts_at(s, n - 1) { 1nat } else { 0nat }
    }
}

/// The number of whitespace-separated words of `text`.
pub fn count_words(text: &str) -> (r: usize)
    ensures
        r == words_in(text@, text@.len() as int),
{
    let n = text.unicode_len();
    let mut count: usize = 0;
    let mut prev_ws = true;
    let mut i: usize = 0;
    while i < n
        invariant
            n == text@.len(),
            i <= n,
            count == words_in(text@, i as int),
            count <= i,
            prev_ws == (i == 0 || is_ws(text@[i - 1])),
        decreases n - i,
    {
        let c = text.get_char(i);
        let ws = is_whitespace(c);
        if !ws && prev_ws {
            count = count + 1;
        }
        prev_ws = ws;
        i = i + 1;
    }
    count
}

/// Whole minutes needed to read `word_count` words at 225 words a minute,
/// rounded up.
pub fn calculate_reading_time(word_count: usize) -> (r: u64)
    ensures
        r as int == (word_count as int + 224) / 225,
{
    let w = word_count as u64;
    let r = w / 225 + if w % 225 == 0 { 0 } else { 1 };
    r
}

/// Whether `s` holds nothing but whitespace.
pub open spec fn blank(s: Seq<char>) -> bool {
    forall|i: int| 0 <= i < s.len() ==> is_ws(#[trigger] s[i])
}

/// `i` is where the text starts once leading whitespace is skipped.
pub open spec fn is_start(s: Seq<char>, i: int) -> bool {
    &&& 0 <= i <= s.len()
    &&& forall|j: int| 0 <= j < i ==> is_ws(#[trigger] s[j])
    &&& i == s.len() || !is_ws(s[i])
}

/// `i` is where the text ends once trailing whitespace is dropped.
pub open spec fn is_end(s: Seq<char>, i: int) -> bool {
    &&& 0 <= i <= s.len()
    &&& forall|j: int| i <= j < s.len() ==> is_ws(#[trigger] s[j])
    &&& i == 0 || !is_ws(s[i - 1])
}

/// `s` without leading and trailing whitespace.
pub open spec fn trimmed(s: Seq<char>) -> Seq<char> {
    let a = choose|a: int| is_start(s, a);
    let b = choose|b: int| is_end(s, b);
    if a < b {
        s.subrange(a, b)
    } else {
        Seq::empty()
    }
}

proof fn lemma_start_unique(s: Seq<char>, a: int, b: int)
    requires
        is_start(s, a),
        is_start(s, b),
    ensures
        a == b,
{
    if a < b {
        assert(is_ws(s[a]));
    } else if b < a {
        assert(is_ws(s[b]));
    }
}

proof fn lemma_end_unique(s: Seq<char>, a: int, b: int)
    requires
        is_end(s, a),
        is_end(s, b),
    ensures
        a == b,
{
    if a < b {
        assert(is_ws(s[b - 1]));
    } else if b < a {
        assert(is_ws(s[a - 1]));
    }
}

/// The bounds of `text` without its leading and trailing whitespace.
fn trim_bounds(text: &str) -> (r: (usize, usize))
    ensures
        r.0 <= text@.len(),
        r.1 <= text@.len(),
        trimmed(text@) == if r.0 < r.1 {
            text@.subrange(r.0 as int, r.1 as int)
        } else {
            Seq::empty()
        },
{
    let n = text.unicode_len();
    let mut a: usize = 0;
    while a < n && is_whitespace(text.get_char(a))
        invariant
            n == text@.len(),
            a <= n,
            forall|j: int| 0 <= j < a ==> is_ws(#[trigger] text@[j]),
        decreases n - a,
    {
        a = a + 1;
    }
    let mut b: usize = n;
    while b > 0 && is_whitespace(text.get_char(b - 1))
        invariant
            n == text@.len(),
            b <= n,
            forall|j: int| b <= j < n ==> is_ws(#[trigger] text@[j]),
        decreases b,
    {
        b = b - 1;
    }
    proof {
        let s = text@;
        assert(is_start(s, a as int));
        assert(is_end(s, b as int));
        let ca = choose|x: int| is_start(s, x);
        let cb = choose|x: int| is_end(s, x);
        lemma_start_unique(s, a as int, ca);
        lemma_end_unique(s, b as int, cb);
    }
    (a, b)
}

/// Whether `a` and `b` are equal once leading and trailing whitespace is
/// dropped from both.
pub fn same_trimmed(a: &str, b: &str) -> (r: bool)
    ensures
        r == (trimmed(a@) == trimmed(b@)),
{
    let (a0, a1) = trim_bounds(a);
    let (b0, b1) = trim_bounds(b);
    let la: usize = if a0 < a1 { a1 - a0 } else { 0 };
    let lb: usize = if b0 < b1 { b1 - b0 } else { 0 };
    if la != lb {
        assert(trimmed(a@).len() != trimmed(b@).len());
        return false;
    }
    let mut i: usize = 0;
    while i < la
        invariant
            la == lb,
            la > 0 ==> a0 + la == a1 && b0 + lb == b1,
            a1 <= a@.len(),
            b1 <= b@.len(),
            la == trimmed(a@).len(),
            lb == trimmed(b@).len(),
            la > 0 ==> trimmed(a@) == a@.subrange(a0 as int, a1 as int),
            lb > 0 ==> trimmed(b@) == b@.subrange(b0 as int, b1 as int),
            i <= la,
            forall|j: int| 0 <= j < i ==> trimmed(a@)[j] == trimmed(b@)[j],
        decreases la - i,
    {
        if a.get_char(a0 + i) != b.get_char(b0 + i) {
            assert(trimmed(a@)[i as int] != trimmed(b@)[i as int]);
            return false;
        }
        i = i + 1;
    }
    assert(trimmed(a@) =~= trimmed(b@));
    true
}

/// Whether `text` holds nothing but whitespace.
pub fn is_blank(text: &str) -> (r: bool)
    ensures
        r == blank(text@),
{
    let n = text.unicode_len();
    let mut i: usize = 0;
    while i < n
        invariant
            n == text@.len(),
            i <= n,
            forall|j: int| 0 <= j < i ==> is_ws(#[trigger] text@[j]),
        decreases n - i,
    {
        if !is_whitespace(text.get_char(i)) {
            return false;
        }
        i = i + 1;
    }
    true
}

/// The escape sequence that ends a colour.
pub open spec fn reset_seq() -> Seq<char> {
    seq!['\u{1b}', '[', '0', 'm']
}

/// The escape sequence that starts cyan.
pub open spec fn cyan_start() -> Seq<char> {
    seq!['\u{1b}', '[', '3', '6', 'm']
}

/// `s` with cyan started again after each reset sequence inside it, read
/// left to right.
pub open spec fn reescaped(s: Seq<char>) -> Seq<char>
    decreases s.len(),
{
    if s.len() < 4 {
        s
    } else if s.subrange(0, 4) == reset_seq() {
        reset_seq() + cyan_start() + reescaped(s.skip(4))
    } else {
        seq![s[0]] + reescaped(s.drop_first())
    }
}

/// `s` in cyan: the colour's escape sequence, `s` with inner resets
/// re-escaped, and a reset.
pub open spec fn cyan_wrap(s: Seq<char>) -> Seq<char> {
    cyan_start() + reescaped(s) + reset_seq()
}

/// What painting `s` cyan may give: `s` itself where colours are off, `s`
/// wrapped in the colour where they are on.
pub open spec fn painted_form(s: Seq<char>, r: Seq<char>) -> bool {
    r == s || r == cyan_wrap(s)
}

/// Relies on colored's `Colorize::cyan` and its `Display`: the text alone
/// when colouring is off (no terminal, `NO_COLOR`), else wrapped in the cyan
/// escape sequence, with cyan started again after each reset inside it.
#[verifier::external_body]
fn paint_cyan(s: &str) -> (r: String)
    ensures
        painted_form(s@, r@),
{
    colored::Colorize::cyan(s).to_string()
}

/// `parts` joined with single spaces.
pub open spec fn joined(parts: Seq<Seq<char>>) -> Seq<char>
    decreases parts.len(),
{
    if parts.len() == 0 {
        Seq::empty()
    } else if parts.len() == 1 {
        parts[0]
    } else {
        joined(parts.drop_last()) + seq![' '] + parts.last()
    }
}

/// The tag list as displayed after a key: nothing for no tags, else a
/// space and the tags, already painted, in brackets.
pub open spec fn tag_suffix(painted: Seq<Seq<char>>) -> Seq<char> {
    if painted.len() == 0 {
        Seq::empty()
    } else {
        seq![' ', '['] + joined(painted) + seq![']']
    }
}

pub open spec fn hashed(t: Seq<char>) -> Seq<char> {
    seq!['#'] + t
}

/// Puts already painted tags together: ` [#a #b]`, or nothing.
pub fn join_painted_tags(painted: &Vec<String>) -> (r: String)
    ensures
        r@ == tag_suffix(painted@.map_values(|p: String| p@)),
{
    let ghost pv = painted@.map_values(|p: String| p@);
    if painted.len() == 0 {
        return String::new();
    }
    let mut out = String::from_str(" [");
    proof {
        reveal_strlit(" [");
    }
    let mut i: usize = 0;
    while i < painted.len()
        invariant
            0 < painted.len(),
            pv == painted@.map_values(|p: String| p@),
            i <= painted.len(),
            i == 0 ==> out@ == seq![' ', '['],
            i > 0 ==> out@ == seq![' ', '['] + joined(pv.subrange(0, i as int)),
        decreases painted.len() - i,
    {
        proof {
            assert(pv.subrange(0, i + 1).drop_last() =~= pv.subrange(0, i as int));
            assert(pv.subrange(0, i + 1).last() == painted@[i as int]@);
        }
        if i > 0 {
            out.append(" ");
            proof {
                reveal_strlit(" ");
            }
        }
        out.append(painted[i].as_str());
        proof {
            if i == 0 {
                assert(pv.subrange(0, 1).len() == 1);
                assert(out@ =~= seq![' ', '['] + joined(pv.subrange(0, 1)));
            } else {
                assert(out@ =~= seq![' ', '['] + joined(pv.subrange(0, i + 1)));
            }
        }
        i = i + 1;
    }
    assert(pv.subrange(0, painted.len() as int) =~= pv);
    out.append("]");
    proof {
        reveal_strlit("]");
        assert(out@ =~= seq![' ', '['] + joined(pv) + seq![']']);
    }
    out
}

/// The tags as shown after a note's key: ` [#a #b]`, each `#tag` painted
/// cyan where the terminal takes colours; nothing when there are no tags.
pub fn format_tags(tags: &Vec<String>) -> (r: String)
    ensures
        exists|painted: Seq<Seq<char>>|
            painted.len() == tags.len() && r@ == tag_suffix(painted) && forall|i: int|
                0 <= i < tags.len() ==> painted_form(hashed(tags@[i]@), #[trigger] painted[i]),
{
    let mut painted: Vec<String> = Vec::new();
    let mut i: usize = 0;
    while i < tags.len()
        invariant
            i <= tags.len(),
            painted.len() == i,
            forall|j: int|
                0 <= j < i ==> painted_form(hashed(tags@[j]@), #[trigger] painted@[j]@),
        decreases tags.len() - i,
    {
        let mut h = String::from_str("#");
        proof {
            reveal_strlit("#");
        }
        h.append(tags[i].as_str());
        assert(h@ =~= hashed(tags@[i as int]@));
        let p = paint_cyan(h.as_str());
        painted.push(p);
        i = i + 1;
    }
    let r = join_painted_tags(&painted);
    let ghost pv = painted@.map_values(|p: String| p@);
    assert(forall|i: int| 0 <= i < tags.len() ==> painted_form(hashed(tags@[i]@), #[trigger] pv[i]));
    r
}

} // verus!
