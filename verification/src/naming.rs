//! Names under which crawled pages are saved: a file name for the download
//! directory and an object name for the object store.

use vstd::prelude::*;
use crate::text::{chars_of, extend_all, string_of};

verus! {

/// A byte that percent-encoding leaves as it is: an ASCII letter or digit,
/// `-`, `.`, `_` or `~`.
pub open spec fn is_unreserved(b: u8) -> bool {
    (48 <= b && b <= 57) || (65 <= b && b <= 90) || (97 <= b && b <= 122) || b == 45 || b == 46
        || b == 95 || b == 126
}

/// The upper-case hexadecimal digit for `d < 16`.
pub open spec fn hex_digit(d: u8) -> char {
    if d < 10 {
        (48 + d) as char
    } else {
        (55 + d) as char
    }
}

/// Percent-encoding of bytes: unreserved bytes as their character, every
/// other byte as `%` and two upper-case hexadecimal digits.
pub open spec fn percent_encode(bytes: Seq<u8>) -> Seq<char>
    decreases bytes.len(),
{
    if bytes.len() == 0 {
        Seq::empty()
    } else {
        let b = bytes[0];
        (if is_unreserved(b) {
            seq![b as char]
        } else {
            seq!['%', hex_digit(b / 16), hex_digit(b % 16)]
        }) + percent_encode(bytes.drop_first())
    }
}

/// `urlencoding::encode`.  Its documentation and source: every byte of the
/// UTF-8 encoding of the text except ASCII alphanumerics and `-`, `.`, `_`,
/// `~` becomes `%` followed by two upper-case hexadecimal digits; the
/// others are kept.
#[verifier::external_body]
fn url_encode(s: &str) -> (r: String)
    ensures
        r@ == percent_encode(vstd::utf8::encode_utf8(s@)),
{
    urlencoding::encode(s).into_owned()
}

/// At most the first `n` elements of `s`.
pub open spec fn at_most(s: Seq<char>, n: int) -> Seq<char> {
    if s.len() <= n {
        s
    } else {
        s.take(n)
    }
}

/// The file name a crawled page is saved under: the first 50 characters of
/// its percent-encoded URL, then `.html`.
pub open spec fn page_file_name_of(url: Seq<char>) -> Seq<char> {
    at_most(percent_encode(vstd::utf8::encode_utf8(url)), 50) + ".html"@
}

/// The file name for the page at `url` (see [`page_file_name_of`]).
pub fn page_file_name(url: &str) -> (name: String)
    ensures
        name@ == page_file_name_of(url@),
{
    let encoded = url_encode(url);
    let cs = chars_of(encoded.as_str());
    let mut out: Vec<char> = Vec::new();
    let mut i: usize = 0;
    while i < cs.len() && i < 50
        invariant
            i <= cs.len(),
            i <= 50,
            out@ == cs@.take(i as int),
        decreases cs.len() - i,
    {
        out.push(cs[i]);
        assert(cs@.take(i as int).push(cs@[i as int]) =~= cs@.take(i + 1));
        i = i + 1;
    }
    assert(out@ == at_most(cs@, 50)) by {
        if cs@.len() <= 50 {
            assert(cs@.take(cs@.len() as int) =~= cs@);
        }
    }
    let suffix = chars_of(".html");
    extend_all(&mut out, &suffix);
    string_of(&out)
}

/// A character that may stand in a saved page's file name: an ASCII letter
/// or digit, `-`, `.`, `_`, `~` or `%`.
pub open spec fn is_file_name_char(c: char) -> bool {
    ('0' <= c && c <= '9') || ('A' <= c && c <= 'Z') || ('a' <= c && c <= 'z') || c == '-' || c
        == '.' || c == '_' || c == '~' || c == '%'
}

proof fn lemma_percent_encode_chars(bytes: Seq<u8>)
    ensures
        forall|k: int|
            0 <= k < percent_encode(bytes).len() ==> is_file_name_char(
                #[trigger] percent_encode(bytes)[k],
            ),
    decreases bytes.len(),
{
    if bytes.len() > 0 {
        lemma_percent_encode_chars(bytes.drop_first());
        let b = bytes[0];
        let head = if is_unreserved(b) {
            seq![b as char]
        } else {
            seq!['%', hex_digit(b / 16), hex_digit(b % 16)]
        };
        let rest = percent_encode(bytes.drop_first());
        assert(percent_encode(bytes) == head + rest);
        assert forall|k: int| 0 <= k < head.len() implies is_file_name_char(#[trigger] head[k]) by {
            if !is_unreserved(b) {
                assert(b / 16 < 16 && b % 16 < 16);
            }
        }
        assert forall|k: int|
            0 <= k < (head + rest).len() implies is_file_name_char(#[trigger] (head + rest)[k]) by {
            if k < head.len() {
                assert((head + rest)[k] == head[k]);
            } else {
                assert((head + rest)[k] == rest[k - head.len()]);
            }
        }
    }
}

/// A saved page's file name is made only of ASCII letters and digits and
/// `-`, `.`, `_`, `~`, `%`: it holds no path separator, so a page is always
/// saved inside the download directory; it ends in `.html` and has at most
/// 55 characters.
pub proof fn lemma_page_file_name_safe(url: Seq<char>)
    ensures
        forall|k: int|
            0 <= k < page_file_name_of(url).len() ==> is_file_name_char(
                #[trigger] page_file_name_of(url)[k],
            ),
        page_file_name_of(url).len() <= 55,
        page_file_name_of(url).len() >= 5,
        page_file_name_of(url).skip(page_file_name_of(url).len() - 5) == ".html"@,
{
    reveal_strlit(".html");
    let e = percent_encode(vstd::utf8::encode_utf8(url));
    lemma_percent_encode_chars(vstd::utf8::encode_utf8(url));
    let head = at_most(e, 50);
    let name = page_file_name_of(url);
    assert(name == head + ".html"@);
    assert forall|k: int| 0 <= k < name.len() implies is_file_name_char(#[trigger] name[k]) by {
        if k < head.len() {
            assert(name[k] == head[k]);
            assert(head[k] == e[k]);
        } else {
            assert(name[k] == ".html"@[k - head.len()]);
        }
    }
    assert(name.skip(name.len() - 5) =~= ".html"@);
}

/// A character of a URL as it appears in an object name: `/`, `:` and `?`
/// become `_`.
pub open spec fn object_char(c: char) -> char {
    if c == '/' || c == ':' || c == '?' {
        '_'
    } else {
        c
    }
}

/// The object name a crawled page is stored under: its URL with `/`, `:`
/// and `?` replaced by `_`, then `.html`.
pub open spec fn object_name_of(url: Seq<char>) -> Seq<char> {
    url.map_values(|c: char| object_char(c)) + ".html"@
}

/// The object name for the page at `url` (see [`object_name_of`]).
pub fn object_name(url: &str) -> (name: String)
    ensures
        name@ == object_name_of(url@),
{
    let cs = chars_of(url);
    let mut out: Vec<char> = Vec::new();
    let mut i: usize = 0;
    while i < cs.len()
        invariant
            i <= cs.len(),
            out@ == cs@.take(i as int).map_values(|c: char| object_char(c)),
        decreases cs.len() - i,
    {
        let c = cs[i];
        let d = if c == '/' || c == ':' || c == '?' {
            '_'
        } else {
            c
        };
        out.push(d);
        assert(cs@.take(i + 1).map_values(|c: char| object_char(c)) =~= cs@.take(
            i as int,
        ).map_values(|c: char| object_char(c)).push(d));
        i = i + 1;
    }
    assert(cs@.take(cs.len() as int) =~= cs@);
    let suffix = chars_of(".html");
    extend_all(&mut out, &suffix);
    string_of(&out)
}

/// An object name holds no `/`, `:` or `?`, and has the URL's length plus
/// five.
pub proof fn lemma_object_name_safe(url: Seq<char>)
    ensures
        forall|k: int|
            0 <= k < object_name_of(url).len() ==> {
                let c = #[trigger] object_name_of(url)[k];
                c != '/' && c != ':' && c != '?'
            },
        object_name_of(url).len() == url.len() + 5,
{
    reveal_strlit(".html");
    let m = url.map_values(|c: char| object_char(c));
    let name = object_name_of(url);
    assert forall|k: int| 0 <= k < name.len() implies {
        let c = #[trigger] name[k];
        c != '/' && c != ':' && c != '?'
    } by {
        if k < m.len() {
            assert(name[k] == object_char(url[k]));
        } else {
            assert(name[k] == ".html"@[k - m.len()]);
        }
    }
}

/// An object name is the URL character for character, with each `/`, `:`
/// and `?` turned into `_` and every other character kept where it stands,
/// followed by `.html`.
pub proof fn lemma_object_name_keeps_url(url: Seq<char>)
    ensures
        object_name_of(url).len() == url.len() + 5,
        forall|k: int|
            0 <= k < url.len() ==> {
                let c = url[k];
                #[trigger] object_name_of(url)[k] == if c == '/' || c == ':' || c == '?' {
                    '_'
                } else {
                    c
                }
            },
        object_name_of(url).skip(url.len() as int) == ".html"@,
{
    reveal_strlit(".html");
    let name = object_name_of(url);
    assert forall|k: int| 0 <= k < url.len() implies #[trigger] name[k] == object_char(url[k]) by {}
    assert(name.skip(url.len() as int) =~= ".html"@);
}

/// A saved page's file name is the percent-encoded URL cut to its first 50
/// characters (all of it when shorter), followed by `.html`.
pub proof fn lemma_page_file_name_is_encoded_prefix(url: Seq<char>)
    ensures
        ({
            let e = percent_encode(vstd::utf8::encode_utf8(url));
            let name = page_file_name_of(url);
            let n = if e.len() < 50 { e.len() as int } else { 50 };
            &&& name.len() == n + 5
            &&& forall|k: int| 0 <= k < n ==> #[trigger] name[k] == e[k]
            &&& name.skip(n) == ".html"@
        }),
{
    reveal_strlit(".html");
    let e = percent_encode(vstd::utf8::encode_utf8(url));
    let name = page_file_name_of(url);
    let n = if e.len() < 50 { e.len() as int } else { 50 };
    assert(name.skip(n) =~= ".html"@);
}

} // verus!
