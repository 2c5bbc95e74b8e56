//! Reading values out of fetched HTML: the page title and quoted fields of
//! inline scripts (`key:"value"`).

use vstd::prelude::*;
use crate::text::{
    chars_of, find_from, first_occurrence, is_first_from, is_whitespace, lemma_first_none,
    lemma_first_some, lemma_first_unique, char_matches, lemma_trimmed_span, occurs_at, occurs_here, slice_chars,
    string_of, trim_chars, trimmed,
};

verus! {

/// `<title>`, matched without regard to ASCII case where noted.
pub open spec fn title_open() -> Seq<char> {
    seq!['<', 't', 'i', 't', 'l', 'e', '>']
}

/// `</title>`.
pub open spec fn title_close() -> Seq<char> {
    seq!['<', '/', 't', 'i', 't', 'l', 'e', '>']
}

fn title_open_chars() -> (v: Vec<char>)
    ensures
        v@ == title_open(),
{
    let v = vec!['<', 't', 'i', 't', 'l', 'e', '>'];
    assert(v@ =~= title_open());
    v
}

fn title_close_chars() -> (v: Vec<char>)
    ensures
        v@ == title_close(),
{
    let v = vec!['<', '/', 't', 'i', 't', 'l', 'e', '>'];
    assert(v@ =~= title_close());
    v
}

/// The title of a page: the text between the first `<title>` and the first
/// `</title>` after it, both matched in any ASCII case, with surrounding
/// whitespace removed; `无标题` ("untitled") when either tag is missing.
/// When the first `<title>` has no `</title>` after it, no later one has,
/// so this is the leftmost, shortest match of the tag pair.
pub open spec fn title_of(html: Seq<char>) -> Seq<char> {
    match first_occurrence(html, title_open(), 0, true) {
        None => "无标题"@,
        Some(i) => match first_occurrence(html, title_close(), i + 7, true) {
            None => "无标题"@,
            Some(j) => trimmed(html.subrange(i + 7, j)),
        },
    }
}

/// The page title of `html` (see [`title_of`]).
pub fn get_title_from_html(html: &str) -> (title: String)
    ensures
        title@ == title_of(html@),
{
    let cs = chars_of(html);
    let open = title_open_chars();
    let close = title_close_chars();
    match find_from(&cs, &open, 0, true) {
        None => "无标题".to_owned(),
        Some(i) => {
            proof {
                lemma_first_some(cs@, open@, 0, true);
                assert(open@.len() == 7);
                assert(occurs_at(cs@, i as int, open@, true));
                assert(i + 7 <= cs.len());
            }
            match find_from(&cs, &close, i + 7, true) {
                None => "无标题".to_owned(),
                Some(j) => {
                    proof {
                        lemma_first_some(cs@, close@, i + 7, true);
                    }
                    let inner = slice_chars(&cs, i + 7, j);
                    let t = trim_chars(&inner);
                    string_of(&t)
                },
            }
        },
    }
}

/// When `<title>` first occurs (in any ASCII case) at `i` and `</title>`
/// first occurs after it at `j`, the title is all of the text between the
/// two tags, `html[i+7..j]`, less only its leading and trailing whitespace:
/// it is `html[a..b]` for the returned `(a, b)`, with nothing but
/// whitespace in `html[i+7..a]` and `html[b..j]`, and no whitespace at
/// either end of the title itself.
pub proof fn lemma_title_is_text_between_tags(html: Seq<char>, i: int, j: int) -> (ab: (int, int))
    requires
        is_first_from(html, title_open(), 0, true, i),
        is_first_from(html, title_close(), i + 7, true, j),
    ensures
        i + 7 <= ab.0 <= ab.1 <= j,
        title_of(html) == html.subrange(ab.0, ab.1),
        forall|k: int| i + 7 <= k < ab.0 ==> is_whitespace(#[trigger] html[k]),
        forall|k: int| ab.1 <= k < j ==> is_whitespace(#[trigger] html[k]),
        ab.0 < ab.1 ==> !is_whitespace(html[ab.0]) && !is_whitespace(html[ab.1 - 1]),
{
    lemma_first_unique(html, title_open(), 0, true, i);
    lemma_first_unique(html, title_close(), i + 7, true, j);
    assert(j + 8 <= html.len());
    let inner = html.subrange(i + 7, j);
    let (a, b) = lemma_trimmed_span(inner);
    assert forall|k: int| i + 7 <= k < i + 7 + a implies is_whitespace(#[trigger] html[k]) by {
        assert(html[k] == inner[k - (i + 7)]);
    }
    assert forall|k: int| i + 7 + b <= k < j implies is_whitespace(#[trigger] html[k]) by {
        assert(html[k] == inner[k - (i + 7)]);
    }
    assert(inner.subrange(a, b) =~= html.subrange(i + 7 + a, i + 7 + b));
    if a < b {
        assert(html[i + 7 + a] == inner[a]);
        assert(html[i + 7 + b - 1] == inner[b - 1]);
    }
    (i + 7 + a, i + 7 + b)
}

/// The title as a naive split reads it: the text after the first literal
/// `<title>` and before the next `<title>`, cut at the first `</title>` in
/// it, with surrounding whitespace removed; `unknown` when the page has no
/// `<title>` at all.
pub open spec fn structured_title_of(html: Seq<char>) -> Seq<char> {
    match first_occurrence(html, title_open(), 0, false) {
        None => "unknown"@,
        Some(p) => {
            let start = p + 7;
            let q = match first_occurrence(html, title_open(), start, false) {
                Some(q) => q,
                None => html.len() as int,
            };
            let piece = html.subrange(start, q);
            let r = match first_occurrence(piece, title_close(), 0, false) {
                Some(r) => r,
                None => piece.len() as int,
            };
            trimmed(piece.subrange(0, r))
        },
    }
}

/// The title that structured extraction records for a page (see
/// [`structured_title_of`]).
pub fn structured_title(html: &str) -> (title: String)
    ensures
        title@ == structured_title_of(html@),
{
    let cs = chars_of(html);
    let open = title_open_chars();
    let close = title_close_chars();
    match find_from(&cs, &open, 0, false) {
        None => "unknown".to_owned(),
        Some(p) => {
            proof {
                lemma_first_some(cs@, open@, 0, false);
                assert(open@.len() == 7);
                assert(occurs_at(cs@, p as int, open@, false));
                assert(p + 7 <= cs.len());
            }
            let start = p + 7;
            let q = match find_from(&cs, &open, start, false) {
                Some(q) => {
                    proof {
                        lemma_first_some(cs@, open@, start as int, false);
                    }
                    q
                },
                None => cs.len(),
            };
            let piece = slice_chars(&cs, start, q);
            let r = match find_from(&piece, &close, 0, false) {
                Some(r) => {
                    proof {
                        lemma_first_some(piece@, close@, 0, false);
                    }
                    r
                },
                None => piece.len(),
            };
            let head = slice_chars(&piece, 0, r);
            let t = trim_chars(&head);
            string_of(&t)
        },
    }
}

/// When the page has no `<title>` tag, in any ASCII case, its title is
/// `无标题`; so it is when the first one has no `</title>` after it.
pub proof fn lemma_untitled_page(html: Seq<char>)
    ensures
        (forall|m: int| !#[trigger] occurs_at(html, m, title_open(), true)) ==> title_of(html)
            == "无标题"@,
        forall|i: int|
            #[trigger] is_first_from(html, title_open(), 0, true, i) && (forall|m: int|
                !#[trigger] occurs_at(html, m, title_close(), true)) ==> title_of(html)
                == "无标题"@,
{
    if forall|m: int| !#[trigger] occurs_at(html, m, title_open(), true) {
        lemma_first_none(html, title_open(), 0, true);
    }
    assert forall|i: int|
        #[trigger] is_first_from(html, title_open(), 0, true, i) && (forall|m: int|
            !#[trigger] occurs_at(html, m, title_close(), true)) implies title_of(html)
        == "无标题"@ by {
        lemma_first_unique(html, title_open(), 0, true, i);
        lemma_first_none(html, title_close(), i + 7, true);
    }
}

proof fn lemma_occurs_in_part(s: Seq<char>, lo: int, hi: int, m: int, pat: Seq<char>, fold: bool)
    requires
        0 <= lo <= hi <= s.len(),
        0 <= m,
        m + pat.len() <= hi - lo,
    ensures
        occurs_at(s.subrange(lo, hi), m, pat, fold) == occurs_at(s, lo + m, pat, fold),
{
    let part = s.subrange(lo, hi);
    if occurs_at(part, m, pat, fold) {
        assert forall|k: int| 0 <= k < pat.len() implies char_matches(
            #[trigger] s[lo + m + k],
            pat[k],
            fold,
        ) by {
            assert(part[m + k] == s[lo + m + k]);
        }
    }
    if occurs_at(s, lo + m, pat, fold) {
        assert forall|k: int| 0 <= k < pat.len() implies char_matches(
            #[trigger] part[m + k],
            pat[k],
            fold,
        ) by {
            assert(part[m + k] == s[lo + m + k]);
        }
    }
}

/// Structured extraction takes, after the first literal `<title>` (at `p`),
/// the text up to the first `<title>` or `</title>` that follows (at `c`),
/// or up to the end of the page when neither follows, less its leading and
/// trailing whitespace; a page without a literal `<title>` is `unknown`.
pub proof fn lemma_structured_title_span(html: Seq<char>, p: int, c: int)
    requires
        is_first_from(html, title_open(), 0, false, p),
        p + 7 <= c <= html.len(),
        forall|m: int|
            #![trigger occurs_at(html, m, title_open(), false)]
            #![trigger occurs_at(html, m, title_close(), false)]
            p + 7 <= m < c ==> !occurs_at(html, m, title_open(), false) && !occurs_at(
                html,
                m,
                title_close(),
                false,
            ),
        c == html.len() || occurs_at(html, c, title_open(), false) || occurs_at(
            html,
            c,
            title_close(),
            false,
        ),
    ensures
        structured_title_of(html) == trimmed(html.subrange(p + 7, c)),
{
    lemma_first_unique(html, title_open(), 0, false, p);
    let start = p + 7;
    let open = title_open();
    let close = title_close();
    if c < html.len() && occurs_at(html, c, open, false) {
        assert(is_first_from(html, open, start, false, c));
        lemma_first_unique(html, open, start, false, c);
        let piece = html.subrange(start, c);
        assert forall|m: int| 0 <= m implies !#[trigger] occurs_at(piece, m, close, false) by {
            if m + 8 <= piece.len() {
                lemma_occurs_in_part(html, start, c, m, close, false);
            }
        }
        lemma_first_none(piece, close, 0, false);
        assert(piece.subrange(0, piece.len() as int) =~= piece);
    } else if c < html.len() && occurs_at(html, c, close, false) {
        // No `<title>` can start inside the `</title>` at `c`.
        assert forall|m: int| start <= m < c + 8 implies !#[trigger] occurs_at(
            html,
            m,
            open,
            false,
        ) by {
            if c <= m && occurs_at(html, m, open, false) {
                assert(char_matches(html[m + 0], open[0], false));
                if c < m {
                    assert(char_matches(html[c + (m - c)], close[m - c], false));
                }
            }
        }
        let q = match first_occurrence(html, open, start, false) {
            Some(q) => q,
            None => html.len() as int,
        };
        if first_occurrence(html, open, start, false) is Some {
            lemma_first_some(html, open, start, false);
        }
        assert(c + 8 <= q);
        let piece = html.subrange(start, q);
        lemma_occurs_in_part(html, start, q, c - start, close, false);
        assert forall|m: int| 0 <= m < c - start implies !#[trigger] occurs_at(
            piece,
            m,
            close,
            false,
        ) by {
            lemma_occurs_in_part(html, start, q, m, close, false);
        }
        assert(is_first_from(piece, close, 0, false, c - start));
        lemma_first_unique(piece, close, 0, false, c - start);
        assert(piece.subrange(0, c - start) =~= html.subrange(start, c));
    } else {
        assert(c == html.len());
        assert forall|m: int| start <= m implies !#[trigger] occurs_at(html, m, open, false) by {}
        lemma_first_none(html, open, start, false);
        let piece = html.subrange(start, c);
        assert forall|m: int| 0 <= m implies !#[trigger] occurs_at(piece, m, close, false) by {
            if m + 8 <= piece.len() {
                lemma_occurs_in_part(html, start, c, m, close, false);
            }
        }
        lemma_first_none(piece, close, 0, false);
        assert(piece.subrange(0, piece.len() as int) =~= piece);
    }
}

/// A page without a literal `<title>` gets the structured title `unknown`.
pub proof fn lemma_structured_title_unknown(html: Seq<char>)
    requires
        forall|m: int| !#[trigger] occurs_at(html, m, title_open(), false),
    ensures
        structured_title_of(html) == "unknown"@,
{
    lemma_first_none(html, title_open(), 0, false);
}

/// Where a `prefix`, then one or more characters other than `"`, then `"`,
/// match at `i`: the bounds of those characters.
pub open spec fn field_at(s: Seq<char>, prefix: Seq<char>, i: int) -> Option<(int, int)> {
    if occurs_at(s, i, prefix, false) {
        match first_occurrence(s, seq!['"'], i + prefix.len(), false) {
            Some(k) => if k > i + prefix.len() {
                Some((i + prefix.len(), k))
            } else {
                None
            },
            None => None,
        }
    } else {
        None
    }
}

/// The value of the leftmost match of `prefix[^"]+"` in `s[i..]` (the
/// characters between `prefix` and the closing `"`).
pub open spec fn field_from(s: Seq<char>, prefix: Seq<char>, i: int) -> Option<Seq<char>>
    decreases s.len() + 1 - i,
{
    if i < 0 || i > s.len() {
        None
    } else {
        match field_at(s, prefix, i) {
            Some(b) => Some(s.subrange(b.0, b.1)),
            None => field_from(s, prefix, i + 1),
        }
    }
}

/// The value of the leftmost match of `prefix[^"]+"` in `s`.
pub fn quoted_field(s: &Vec<char>, prefix: &Vec<char>) -> (r: Option<Vec<char>>)
    ensures
        match r {
            Some(v) => field_from(s@, prefix@, 0) == Some(v@),
            None => field_from(s@, prefix@, 0) is None,
        },
{
    let quote = vec!['"'];
    assert(quote@ =~= seq!['"']);
    let mut i: usize = 0;
    while i < s.len()
        invariant
            i <= s.len(),
            quote@ == seq!['"'],
            field_from(s@, prefix@, 0) == field_from(s@, prefix@, i as int),
        decreases s.len() - i,
    {
        if prefix.len() <= s.len() - i && occurs_here(s, i, prefix, false) {
            let start = i + prefix.len();
            match find_from(s, &quote, start, false) {
                Some(k) => {
                    proof {
                        lemma_first_some(s@, quote@, start as int, false);
                    }
                    if k > start {
                        return Some(slice_chars(s, start, k));
                    }
                },
                None => {},
            }
        }
        i = i + 1;
    }
    proof {
        let n = s@.len() as int;
        assert forall|m: int| n <= m implies !#[trigger] occurs_at(s@, m, seq!['"'], false) by {}
        lemma_first_none(s@, seq!['"'], n + prefix@.len(), false);
        assert(field_at(s@, prefix@, n) is None);
        assert(field_from(s@, prefix@, n + 1) is None);
    }
    None
}

/// Whether `prefix[^"]+"` matches at `m`, as a condition on single
/// characters: for any `"` after the prefix, the character right after the
/// prefix is itself `"`.
proof fn lemma_no_field_at(s: Seq<char>, prefix: Seq<char>, m: int)
    requires
        0 <= m,
        forall|r: int|
            occurs_at(s, m, prefix, false) && m + prefix.len() < r < s.len() && #[trigger] s[r]
                == '"' ==> s[m + prefix.len()] == '"',
    ensures
        field_at(s, prefix, m) is None,
{
    let start = m + prefix.len();
    if occurs_at(s, m, prefix, false) {
        if first_occurrence(s, seq!['"'], start, false) is Some {
            lemma_first_some(s, seq!['"'], start, false);
            let k = first_occurrence(s, seq!['"'], start, false)->0;
            assert(char_matches(s[k + 0], seq!['"'][0], false));
            if k > start {
                assert(s[k] == '"');
                assert(!occurs_at(s, start, seq!['"'], false));
                assert(!char_matches(s[start + 0], seq!['"'][0], false));
            }
        }
    }
}

proof fn lemma_field_skips(s: Seq<char>, prefix: Seq<char>, j: int, i: int)
    requires
        0 <= j <= i <= s.len(),
        forall|m: int, r: int|
            #![trigger occurs_at(s, m, prefix, false), s[r]]
            j <= m < i && occurs_at(s, m, prefix, false) && m + prefix.len() < r < s.len() && s[r]
                == '"' ==> s[m + prefix.len()] == '"',
    ensures
        field_from(s, prefix, j) == field_from(s, prefix, i),
    decreases i - j,
{
    if j < i {
        lemma_no_field_at(s, prefix, j);
        lemma_field_skips(s, prefix, j + 1, i);
    }
}

/// The value read for `prefix` is taken from the leftmost place where
/// `prefix`, one or more characters other than `"`, and `"` follow each
/// other: when that place is `i` and its closing `"` is at `q`, the value
/// is exactly `s[i + prefix.len() .. q]`.
pub proof fn lemma_quoted_field_leftmost(s: Seq<char>, prefix: Seq<char>, i: int, q: int)
    requires
        occurs_at(s, i, prefix, false),
        i + prefix.len() < q < s.len(),
        s[q] == '"',
        forall|k: int| i + prefix.len() <= k < q ==> #[trigger] s[k] != '"',
        forall|m: int, r: int|
            #![trigger occurs_at(s, m, prefix, false), s[r]]
            0 <= m < i && occurs_at(s, m, prefix, false) && m + prefix.len() < r < s.len() && s[r]
                == '"' ==> s[m + prefix.len()] == '"',
    ensures
        field_from(s, prefix, 0) == Some(s.subrange(i + prefix.len(), q)),
{
    lemma_field_skips(s, prefix, 0, i);
    let start = i + prefix.len();
    assert(occurs_at(s, q, seq!['"'], false));
    assert forall|m: int| start <= m < q implies !#[trigger] occurs_at(s, m, seq!['"'], false) by {
        assert(!char_matches(s[m + 0], seq!['"'][0], false));
    }
    assert(is_first_from(s, seq!['"'], start, false, q));
    lemma_first_unique(s, seq!['"'], start, false, q);
}

/// When `prefix[^"]+"` matches nowhere, no value is read for `prefix`.
pub proof fn lemma_quoted_field_absent(s: Seq<char>, prefix: Seq<char>)
    requires
        forall|m: int, r: int|
            #![trigger occurs_at(s, m, prefix, false), s[r]]
            0 <= m && occurs_at(s, m, prefix, false) && m + prefix.len() < r < s.len() && s[r]
                == '"' ==> s[m + prefix.len()] == '"',
    ensures
        field_from(s, prefix, 0) is None,
{
    lemma_field_skips(s, prefix, 0, s.len() as int);
    lemma_no_field_at(s, prefix, s.len() as int);
    assert(field_from(s, prefix, s.len() + 1int) is None);
}

/// The tags that delimit a title are `<title>` and `</title>`.
pub proof fn lemma_title_tags()
    ensures
        title_open() == seq!['<', 't', 'i', 't', 'l', 'e', '>'],
        title_close() == seq!['<', '/', 't', 'i', 't', 'l', 'e', '>'],
{
}

} // verus!
