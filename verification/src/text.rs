//! Character-level building blocks shared by the parsers of this crate:
//! conversions between strings and character vectors, pattern search and
//! Unicode whitespace trimming, each with a specification over `Seq<char>`.

use vstd::prelude::*;

verus! {

/// The characters of `s`, in order.
pub fn chars_of(s: &str) -> (out: Vec<char>)
    ensures
        out@ == s@,
{
    let mut out: Vec<char> = Vec::new();
    for c in it: s.chars()
        invariant
            out@ == it.seq().take(it.index() as int),
    {
        out.push(c);
    }
    out
}

/// Appends one character to a string (`String::push`).
#[verifier::external_body]
fn push_char(s: &mut String, c: char)
    ensures
        final(s)@ == old(s)@.push(c),
{
    s.push(c);
}

/// The string made of the characters of `cs`, in order.
pub fn string_of(cs: &Vec<char>) -> (out: String)
    ensures
        out@ == cs@,
{
    let mut out = String::new();
    let mut i: usize = 0;
    while i < cs.len()
        invariant
            i <= cs.len(),
            out@ == cs@.take(i as int),
        decreases cs.len() - i,
    {
        push_char(&mut out, cs[i]);
        assert(cs@.take(i as int).push(cs@[i as int]) =~= cs@.take(i + 1));
        i = i + 1;
    }
    assert(cs@.take(cs.len() as int) =~= cs@);
    out
}

/// Appends the characters `cs[lo..hi]` to `out`.
pub fn extend_from(out: &mut Vec<char>, cs: &Vec<char>, lo: usize, hi: usize)
    requires
        lo <= hi <= cs.len(),
    ensures
        final(out)@ == old(out)@ + cs@.subrange(lo as int, hi as int),
{
    let ghost start = out@;
    let mut i: usize = lo;
    while i < hi
        invariant
            lo <= i <= hi,
            hi <= cs.len(),
            out@ == start + cs@.subrange(lo as int, i as int),
        decreases hi - i,
    {
        out.push(cs[i]);
        assert(cs@.subrange(lo as int, i as int).push(cs@[i as int]) =~= cs@.subrange(
            lo as int,
            i + 1,
        ));
        i = i + 1;
    }
}

/// Appends all characters of `cs` to `out`.
pub fn extend_all(out: &mut Vec<char>, cs: &Vec<char>)
    ensures
        final(out)@ == old(out)@ + cs@,
{
    extend_from(out, cs, 0, cs.len());
    assert(cs@.subrange(0, cs@.len() as int) =~= cs@);
}

/// `cs[lo..hi]` as a new vector.
pub fn slice_chars(cs: &Vec<char>, lo: usize, hi: usize) -> (out: Vec<char>)
    requires
        lo <= hi <= cs.len(),
    ensures
        out@ == cs@.subrange(lo as int, hi as int),
{
    let mut out: Vec<char> = Vec::new();
    extend_from(&mut out, cs, lo, hi);
    assert(Seq::<char>::empty() + cs@.subrange(lo as int, hi as int) =~= cs@.subrange(
        lo as int,
        hi as int,
    ));
    out
}

// ------------------------------------------------------------------------
// Pattern search
// ------------------------------------------------------------------------

/// Whether the text character `c` matches the pattern character `p`.  With
/// `fold`, a lower-case ASCII letter in the pattern also matches its
/// upper-case form.
pub open spec fn char_matches(c: char, p: char, fold: bool) -> bool {
    c == p || (fold && 'a' <= p && p <= 'z' && (c as u32) + 32 == (p as u32))
}

/// `pat` occurs in `s` starting at index `i`.
pub open spec fn occurs_at(s: Seq<char>, i: int, pat: Seq<char>, fold: bool) -> bool {
    &&& 0 <= i
    &&& i + pat.len() <= s.len()
    &&& forall|k: int| 0 <= k < pat.len() ==> char_matches(#[trigger] s[i + k], pat[k], fold)
}

/// `k` is the first index at or after `from` where `pat` occurs in `s`.
pub open spec fn is_first_from(s: Seq<char>, pat: Seq<char>, from: int, fold: bool, k: int) -> bool {
    &&& from <= k
    &&& occurs_at(s, k, pat, fold)
    &&& forall|m: int| from <= m < k ==> !#[trigger] occurs_at(s, m, pat, fold)
}

/// The first index at or after `from` where `pat` occurs in `s`, if any.
pub open spec fn first_occurrence(s: Seq<char>, pat: Seq<char>, from: int, fold: bool) -> Option<
    int,
> {
    if exists|k: int| #[trigger] is_first_from(s, pat, from, fold, k) {
        Some(choose|k: int| #[trigger] is_first_from(s, pat, from, fold, k))
    } else {
        None
    }
}

/// There is at most one first occurrence.
pub proof fn lemma_first_unique(s: Seq<char>, pat: Seq<char>, from: int, fold: bool, k: int)
    requires
        is_first_from(s, pat, from, fold, k),
    ensures
        first_occurrence(s, pat, from, fold) == Some(k),
{
    let c = choose|j: int| #[trigger] is_first_from(s, pat, from, fold, j);
    assert(is_first_from(s, pat, from, fold, c));
    if c < k {
        assert(!occurs_at(s, c, pat, fold));
    } else if k < c {
        assert(!occurs_at(s, k, pat, fold));
    }
}

/// When nothing occurs at or after `from`, there is no first occurrence.
pub proof fn lemma_first_none(s: Seq<char>, pat: Seq<char>, from: int, fold: bool)
    requires
        forall|m: int| from <= m ==> !#[trigger] occurs_at(s, m, pat, fold),
    ensures
        first_occurrence(s, pat, from, fold) is None,
{
    if exists|k: int| #[trigger] is_first_from(s, pat, from, fold, k) {
        let k = choose|k: int| #[trigger] is_first_from(s, pat, from, fold, k);
        assert(occurs_at(s, k, pat, fold));
    }
}

/// What a found first occurrence satisfies.
pub proof fn lemma_first_some(s: Seq<char>, pat: Seq<char>, from: int, fold: bool)
    requires
        first_occurrence(s, pat, from, fold) is Some,
    ensures
        is_first_from(s, pat, from, fold, first_occurrence(s, pat, from, fold)->0),
{
}

/// Whether `pat` occurs in `s` at index `i`.
pub fn occurs_here(s: &Vec<char>, i: usize, pat: &Vec<char>, fold: bool) -> (r: bool)
    requires
        i + pat.len() <= s.len(),
    ensures
        r == occurs_at(s@, i as int, pat@, fold),
{
    let mut k: usize = 0;
    while k < pat.len()
        invariant
            k <= pat.len(),
            i + pat.len() <= s.len(),
            forall|j: int| 0 <= j < k ==> char_matches(#[trigger] s@[i + j], pat@[j], fold),
        decreases pat.len() - k,
    {
        let c = s[i + k];
        let p = pat[k];
        let ok = c == p || (fold && 'a' <= p && p <= 'z' && (p as u32) - 32 == (c as u32));
        if !ok {
            assert(!char_matches(s@[i + k as int], pat@[k as int], fold));
            return false;
        }
        assert(char_matches(s@[i + k as int], pat@[k as int], fold));
        k = k + 1;
    }
    true
}

/// The first index at or after `from` where `pat` occurs in `s`.
pub fn find_from(s: &Vec<char>, pat: &Vec<char>, from: usize, fold: bool) -> (r: Option<usize>)
    ensures
        match r {
            Some(k) => first_occurrence(s@, pat@, from as int, fold) == Some(k as int),
            None => first_occurrence(s@, pat@, from as int, fold) is None,
        },
{
    let mut i: usize = from;
    while i <= s.len() && pat.len() <= s.len() - i
        invariant
            from <= i,
            forall|m: int| from <= m < i ==> !#[trigger] occurs_at(s@, m, pat@, fold),
        decreases s.len() + 1 - i,
    {
        if occurs_here(s, i, pat, fold) {
            proof {
                lemma_first_unique(s@, pat@, from as int, fold, i as int);
            }
            return Some(i);
        }
        i = i + 1;
    }
    proof {
        assert forall|m: int| from <= m implies !#[trigger] occurs_at(s@, m, pat@, fold) by {
            if m >= i {
                assert(m + pat@.len() > s@.len());
            }
        }
        lemma_first_none(s@, pat@, from as int, fold);
    }
    None
}

/// Whether `a` and `b` hold the same characters.
pub fn same_chars(a: &Vec<char>, b: &Vec<char>) -> (r: bool)
    ensures
        r == (a@ == b@),
{
    if a.len() != b.len() {
        return false;
    }
    let ok = occurs_here(a, 0, b, false);
    proof {
        if ok {
            assert forall|k: int| 0 <= k < b@.len() implies a@[k] == b@[k] by {
                assert(char_matches(a@[0 + k], b@[k], false));
            }
            assert(a@ =~= b@);
        } else {
            if a@ == b@ {
                assert forall|k: int| 0 <= k < b@.len() implies char_matches(
                    #[trigger] a@[0 + k],
                    b@[k],
                    false,
                ) by {}
                assert(occurs_at(a@, 0, b@, false));
            }
        }
    }
    ok
}

/// `pat` occurs somewhere in `s` (case-sensitive), as `str::contains`.
pub open spec fn contains_seq(s: Seq<char>, pat: Seq<char>) -> bool {
    first_occurrence(s, pat, 0, false) is Some
}

/// Whether `pat` occurs in `s` (case-sensitive).
pub fn contains_chars(s: &Vec<char>, pat: &Vec<char>) -> (r: bool)
    ensures
        r == contains_seq(s@, pat@),
{
    find_from(s, pat, 0, false).is_some()
}

// ------------------------------------------------------------------------
// Whitespace trimming
// ------------------------------------------------------------------------

/// Unicode `White_Space`, the whitespace that `str::trim` removes.
pub open spec fn is_whitespace(c: char) -> bool {
    ('\u{9}' <= c && c <= '\u{d}') || c == ' ' || c == '\u{85}' || c == '\u{a0}' || c
        == '\u{1680}' || ('\u{2000}' <= c && c <= '\u{200a}') || c == '\u{2028}' || c
        == '\u{2029}' || c == '\u{202f}' || c == '\u{205f}' || c == '\u{3000}'
}

/// The first index at or after `i` that does not hold whitespace.
pub open spec fn skip_ws_forward(s: Seq<char>, i: int) -> int
    decreases s.len() - i,
{
    if 0 <= i < s.len() && is_whitespace(s[i]) {
        skip_ws_forward(s, i + 1)
    } else {
        i
    }
}

/// Moving back from `j`, but not below `lo`, past trailing whitespace.
pub open spec fn skip_ws_backward(s: Seq<char>, lo: int, j: int) -> int
    decreases j - lo,
{
    if lo < j && j <= s.len() && is_whitespace(s[j - 1]) {
        skip_ws_backward(s, lo, j - 1)
    } else {
        j
    }
}

/// `s` without leading and trailing Unicode whitespace, as `str::trim`.
pub open spec fn trimmed(s: Seq<char>) -> Seq<char> {
    let a = skip_ws_forward(s, 0);
    s.subrange(a, skip_ws_backward(s, a, s.len() as int))
}

/// Whether `c` is Unicode whitespace (`char::is_whitespace`).
pub fn is_whitespace_char(c: char) -> (r: bool)
    ensures
        r == is_whitespace(c),
{
    ('\u{9}' <= c && c <= '\u{d}') || c == ' ' || c == '\u{85}' || c == '\u{a0}' || c
        == '\u{1680}' || ('\u{2000}' <= c && c <= '\u{200a}') || c == '\u{2028}' || c
        == '\u{2029}' || c == '\u{202f}' || c == '\u{205f}' || c == '\u{3000}'
}

proof fn lemma_skip_forward(s: Seq<char>, i: int)
    requires
        0 <= i <= s.len(),
    ensures
        i <= skip_ws_forward(s, i) <= s.len(),
        forall|k: int| i <= k < skip_ws_forward(s, i) ==> is_whitespace(#[trigger] s[k]),
        skip_ws_forward(s, i) < s.len() ==> !is_whitespace(s[skip_ws_forward(s, i)]),
    decreases s.len() - i,
{
    if i < s.len() && is_whitespace(s[i]) {
        lemma_skip_forward(s, i + 1);
    }
}

proof fn lemma_skip_backward(s: Seq<char>, lo: int, j: int)
    requires
        0 <= lo <= j <= s.len(),
    ensures
        lo <= skip_ws_backward(s, lo, j) <= j,
        forall|k: int| skip_ws_backward(s, lo, j) <= k < j ==> is_whitespace(#[trigger] s[k]),
        lo < skip_ws_backward(s, lo, j) ==> !is_whitespace(s[skip_ws_backward(s, lo, j) - 1]),
    decreases j - lo,
{
    if lo < j && is_whitespace(s[j - 1]) {
        lemma_skip_backward(s, lo, j - 1);
    }
}

/// Trimming keeps a contiguous part `s[a..b]` of the text: everything before
/// `a` and from `b` on is whitespace, and what is kept neither starts nor
/// ends with whitespace.
pub proof fn lemma_trimmed_span(s: Seq<char>) -> (ab: (int, int))
    ensures
        0 <= ab.0 <= ab.1 <= s.len(),
        trimmed(s) == s.subrange(ab.0, ab.1),
        forall|k: int| 0 <= k < ab.0 ==> is_whitespace(#[trigger] s[k]),
        forall|k: int| ab.1 <= k < s.len() ==> is_whitespace(#[trigger] s[k]),
        ab.0 < ab.1 ==> !is_whitespace(s[ab.0]) && !is_whitespace(s[ab.1 - 1]),
{
    lemma_skip_forward(s, 0);
    let a = skip_ws_forward(s, 0);
    lemma_skip_backward(s, a, s.len() as int);
    let b = skip_ws_backward(s, a, s.len() as int);
    (a, b)
}

/// `cs` without leading and trailing Unicode whitespace.
pub fn trim_chars(cs: &Vec<char>) -> (out: Vec<char>)
    ensures
        out@ == trimmed(cs@),
{
    let mut a: usize = 0;
    while a < cs.len() && is_whitespace_char(cs[a])
        invariant
            a <= cs.len(),
            skip_ws_forward(cs@, 0) == skip_ws_forward(cs@, a as int),
        decreases cs.len() - a,
    {
        a = a + 1;
    }
    let mut b: usize = cs.len();
    while a < b && is_whitespace_char(cs[b - 1])
        invariant
            a <= b <= cs.len(),
            skip_ws_forward(cs@, 0) == a,
            skip_ws_backward(cs@, a as int, cs.len() as int) == skip_ws_backward(
                cs@,
                a as int,
                b as int,
            ),
        decreases b - a,
    {
        b = b - 1;
    }
    slice_chars(cs, a, b)
}

/// An occurrence at or after `from` means there is a first one.
pub proof fn lemma_first_exists(s: Seq<char>, pat: Seq<char>, from: int, fold: bool, j: int)
    requires
        from <= j,
        occurs_at(s, j, pat, fold),
    ensures
        first_occurrence(s, pat, from, fold) is Some,
    decreases j - from,
{
    if exists|m: int| from <= m < j && #[trigger] occurs_at(s, m, pat, fold) {
        let m = choose|m: int| from <= m < j && #[trigger] occurs_at(s, m, pat, fold);
        lemma_first_exists(s, pat, from, fold, m);
    } else {
        assert(is_first_from(s, pat, from, fold, j));
        lemma_first_unique(s, pat, from, fold, j);
    }
}

/// Searching a suffix of `s` from its start is searching `s` from where the
/// suffix begins.
pub proof fn lemma_first_shift(s: Seq<char>, pat: Seq<char>, a: int, fold: bool)
    requires
        0 <= a <= s.len(),
    ensures
        match first_occurrence(s, pat, a, fold) {
            Some(k) => first_occurrence(s.skip(a), pat, 0, fold) == Some(k - a),
            None => first_occurrence(s.skip(a), pat, 0, fold) is None,
        },
{
    let t = s.skip(a);
    assert forall|m: int| #![trigger occurs_at(t, m, pat, fold)]
        0 <= m implies occurs_at(t, m, pat, fold) == occurs_at(s, m + a, pat, fold) by {
        if occurs_at(t, m, pat, fold) {
            assert forall|k: int| 0 <= k < pat.len() implies char_matches(
                #[trigger] s[m + a + k],
                pat[k],
                fold,
            ) by {
                assert(t[m + k] == s[m + a + k]);
            }
        }
        if occurs_at(s, m + a, pat, fold) {
            assert forall|k: int| 0 <= k < pat.len() implies char_matches(
                #[trigger] t[m + k],
                pat[k],
                fold,
            ) by {
                assert(s[m + a + k] == t[m + k]);
            }
        }
    }
    match first_occurrence(s, pat, a, fold) {
        Some(k) => {
            lemma_first_some(s, pat, a, fold);
            assert forall|m: int| 0 <= m < k - a implies !#[trigger] occurs_at(t, m, pat, fold) by {
                assert(!occurs_at(s, m + a, pat, fold));
            }
            assert(occurs_at(t, k - a, pat, fold));
            lemma_first_unique(t, pat, 0, fold, k - a);
        },
        None => {
            assert forall|m: int| 0 <= m implies !#[trigger] occurs_at(t, m, pat, fold) by {
                if occurs_at(t, m, pat, fold) {
                    assert(occurs_at(s, m + a, pat, fold));
                    lemma_first_exists(s, pat, a, fold, m + a);
                }
            }
            lemma_first_none(t, pat, 0, fold);
        },
    }
}

} // verus!
