//! Session cookies: the `name=value; name=value` text under which the cookie
//! store keeps them, reading that text back, and taking cookies from the
//! `Set-Cookie` headers of a login response.

use vstd::prelude::*;
use crate::text::{
    char_matches, chars_of, extend_all, find_from, first_occurrence, is_first_from,
    lemma_first_none, lemma_first_shift, lemma_first_some, lemma_first_unique, occurs_at,
    same_chars, slice_chars, string_of, trimmed,
};

verus! {

/// A cookie of a logged-in session, with the attributes this crawler gives
/// it: the domain and path it is sent to and how many seconds after it is
/// made it expires.
#[derive(Clone, Debug)]
pub struct SessionCookie {
    pub name: String,
    pub value: String,
    pub domain: String,
    pub path: String,
    pub valid_for_secs: u64,
}

/// The contents of a [`SessionCookie`].
pub struct CookieView {
    pub name: Seq<char>,
    pub value: Seq<char>,
    pub domain: Seq<char>,
    pub path: Seq<char>,
    pub valid_for_secs: u64,
}

impl View for SessionCookie {
    type V = CookieView;

    open spec fn view(&self) -> CookieView {
        CookieView {
            name: self.name@,
            value: self.value@,
            domain: self.domain@,
            path: self.path@,
            valid_for_secs: self.valid_for_secs,
        }
    }
}

/// How long cookies read back from the cookie store stay valid: one hour.
pub const STORED_COOKIE_SECS: u64 = 3600;

/// How long cookies obtained by logging in stay valid: one day.
pub const LOGIN_COOKIE_SECS: u64 = 86400;

/// The separator between cookies in stored text: `; `.
pub open spec fn separator() -> Seq<char> {
    seq![';', ' ']
}

/// `name=value`.
pub open spec fn pair_text(name: Seq<char>, value: Seq<char>) -> Seq<char> {
    name + seq!['='] + value
}

/// The texts joined with `; ` between consecutive ones.
pub open spec fn join_texts(ts: Seq<Seq<char>>) -> Seq<char>
    decreases ts.len(),
{
    if ts.len() == 0 {
        Seq::empty()
    } else if ts.len() == 1 {
        ts[0]
    } else {
        ts[0] + separator() + join_texts(ts.drop_first())
    }
}

/// The name and value of each cookie.
pub open spec fn name_values(cookies: Seq<SessionCookie>) -> Seq<(Seq<char>, Seq<char>)> {
    cookies.map_values(|c: SessionCookie| (c.name@, c.value@))
}

/// The text of a cookie list: `name=value` for each cookie, in order,
/// joined with `; ` (as sent in a `Cookie` header and kept in the store).
pub open spec fn cookie_header_of(cookies: Seq<SessionCookie>) -> Seq<char> {
    join_texts(cookies.map_values(|c: SessionCookie| pair_text(c.name@, c.value@)))
}

/// `s` cut at each `; `, found left to right without overlap
/// (`str::split("; ")`).
pub open spec fn split_pieces(s: Seq<char>) -> Seq<Seq<char>>
    decreases s.len(),
{
    match first_occurrence(s, separator(), 0, false) {
        Some(p) => if 0 <= p && p + 2 <= s.len() {
            seq![s.take(p)] + split_pieces(s.skip(p + 2))
        } else {
            seq![s]
        },
        None => seq![s],
    }
}

/// A piece read as `name=value`, cut at its first `=`
/// (`splitn(2, '=')` giving two parts); `None` when it has no `=`.
pub open spec fn pair_of(piece: Seq<char>) -> Option<(Seq<char>, Seq<char>)> {
    match first_occurrence(piece, seq!['='], 0, false) {
        Some(e) => Some((piece.take(e), piece.skip(e + 1))),
        None => None,
    }
}

/// The pairs of the pieces that have an `=`, in order.
pub open spec fn pairs_of(pieces: Seq<Seq<char>>) -> Seq<(Seq<char>, Seq<char>)>
    decreases pieces.len(),
{
    if pieces.len() == 0 {
        Seq::empty()
    } else {
        match pair_of(pieces[0]) {
            Some(p) => seq![p] + pairs_of(pieces.drop_first()),
            None => pairs_of(pieces.drop_first()),
        }
    }
}

/// The name/value pairs that stored cookie text holds.
pub open spec fn stored_pairs(s: Seq<char>) -> Seq<(Seq<char>, Seq<char>)> {
    pairs_of(split_pieces(s))
}

/// `cookies` have the given name/value pairs, in order, and all carry the
/// given domain, path `/` and lifetime.
pub open spec fn cookies_are(
    cookies: Seq<SessionCookie>,
    pairs: Seq<(Seq<char>, Seq<char>)>,
    domain: Seq<char>,
    valid_for_secs: u64,
) -> bool {
    &&& cookies.len() == pairs.len()
    &&& forall|k: int|
        0 <= k < cookies.len() ==> {
            &&& (#[trigger] cookies[k]).name@ == pairs[k].0
            &&& cookies[k].value@ == pairs[k].1
            &&& cookies[k].domain@ == domain
            &&& cookies[k].path@ == seq!['/']
            &&& cookies[k].valid_for_secs == valid_for_secs
        }
}

/// The text under which `cookies` are stored and sent: `name=value` for
/// each, joined with `; `.
pub fn cookie_header(cookies: &Vec<SessionCookie>) -> (text: String)
    ensures
        text@ == cookie_header_of(cookies@),
{
    let ghost ts = cookies@.map_values(|c: SessionCookie| pair_text(c.name@, c.value@));
    let mut out: Vec<char> = Vec::new();
    let mut i: usize = 0;
    while i < cookies.len()
        invariant
            i <= cookies.len(),
            ts == cookies@.map_values(|c: SessionCookie| pair_text(c.name@, c.value@)),
            i == 0 ==> out@.len() == 0,
            0 < i < cookies.len() ==> join_texts(ts) == out@ + separator() + join_texts(
                ts.skip(i as int),
            ),
            i == cookies.len() && i > 0 ==> join_texts(ts) == out@,
        decreases cookies.len() - i,
    {
        let ghost before = out@;
        if i > 0 {
            out.push(';');
            out.push(' ');
        }
        let name = chars_of(cookies[i].name.as_str());
        let value = chars_of(cookies[i].value.as_str());
        extend_all(&mut out, &name);
        out.push('=');
        extend_all(&mut out, &value);
        proof {
            let rest = ts.skip(i as int);
            let pair = pair_text(name@, value@);
            assert(rest[0] == ts[i as int]);
            assert(ts[i as int] == pair);
            assert(rest.drop_first() =~= ts.skip(i + 1));
            let prefix = if i == 0 {
                Seq::<char>::empty()
            } else {
                before + separator()
            };
            if i == 0 {
                assert(ts =~= rest);
                assert(join_texts(ts) =~= prefix + join_texts(rest));
            }
            assert(join_texts(ts) == prefix + join_texts(rest));
            assert(out@ =~= prefix + pair);
            if i + 1 < cookies.len() {
                assert(join_texts(rest) == pair + separator() + join_texts(rest.drop_first()));
                assert(prefix + (pair + separator() + join_texts(rest.drop_first())) =~= out@
                    + separator() + join_texts(ts.skip(i + 1)));
            } else {
                assert(join_texts(rest) == pair);
            }
        }
        i = i + 1;
    }
    string_of(&out)
}

/// The first `name=value` split of a piece.
fn pair_of_exec(piece: &Vec<char>) -> (r: Option<(Vec<char>, Vec<char>)>)
    ensures
        match r {
            Some(p) => pair_of(piece@) == Some((p.0@, p.1@)),
            None => pair_of(piece@) is None,
        },
{
    let eq = vec!['='];
    assert(eq@ =~= seq!['=']);
    match find_from(piece, &eq, 0, false) {
        Some(e) => {
            proof {
                lemma_first_some(piece@, eq@, 0, false);
                assert(occurs_at(piece@, e as int, eq@, false));
                assert(e + 1 <= piece.len());
            }
            let n = slice_chars(piece, 0, e);
            let v = slice_chars(piece, e + 1, piece.len());
            assert(n@ =~= piece@.take(e as int));
            assert(v@ =~= piece@.skip(e + 1));
            Some((n, v))
        },
        None => None,
    }
}

/// The cookies kept in the store under the text `stored`: for each
/// `; `-separated piece that has an `=`, the cookie named by the text
/// before its first `=` with the text after it as value, sent to domain
/// `example.com` under path `/`, valid for one hour.
pub fn cookies_from_stored(stored: &str) -> (cookies: Vec<SessionCookie>)
    ensures
        cookies_are(cookies@, stored_pairs(stored@), "example.com"@, STORED_COOKIE_SECS),
{
    let cs = chars_of(stored);
    let sep = vec![';', ' '];
    assert(sep@ =~= separator());
    let mut cookies: Vec<SessionCookie> = Vec::new();
    let mut start: usize = 0;
    let ghost all = stored_pairs(cs@);
    let ghost mut got: Seq<(Seq<char>, Seq<char>)> = Seq::empty();
    assert(cs@.skip(0) =~= cs@);
    loop
        invariant
            start <= cs.len(),
            cs@ == stored@,
            sep@ == separator(),
            all == stored_pairs(cs@),
            all == got + pairs_of(split_pieces(cs@.skip(start as int))),
            cookies_are(cookies@, got, "example.com"@, STORED_COOKIE_SECS),
        decreases cs.len() - start,
    {
        let found = find_from(&cs, &sep, start, false);
        let end = match found {
            Some(p) => p,
            None => cs.len(),
        };
        proof {
            lemma_first_shift(cs@, sep@, start as int, false);
            if found is Some {
                lemma_first_some(cs@, sep@, start as int, false);
                assert(occurs_at(cs@, end as int, sep@, false));
            }
        }
        let piece = slice_chars(&cs, start, end);
        let ghost rest = cs@.skip(start as int);
        proof {
            match found {
                Some(p) => {
                    assert(rest.take(p - start) =~= piece@);
                    assert(rest.skip(p - start + 2) =~= cs@.skip(p + 2));
                    assert(split_pieces(rest) == seq![piece@] + split_pieces(cs@.skip(p + 2)));
                },
                None => {
                    assert(rest =~= piece@);
                    assert(split_pieces(rest) == seq![piece@]);
                },
            }
        }
        let ghost pieces = split_pieces(rest);
        assert(pieces[0] == piece@);
        match pair_of_exec(&piece) {
            Some(p) => {
                let c = SessionCookie {
                    name: string_of(&p.0),
                    value: string_of(&p.1),
                    domain: "example.com".to_owned(),
                    path: "/".to_owned(),
                    valid_for_secs: STORED_COOKIE_SECS,
                };
                proof {
                    reveal_strlit("/");
                }
                let ghost old_cookies = cookies@;
                cookies.push(c);
                proof {
                    let pr = (p.0@, p.1@);
                    assert(c.path@ == seq!['/']);
                    assert forall|k: int| 0 <= k < cookies@.len() implies {
                        &&& (#[trigger] cookies@[k]).name@ == got.push(pr)[k].0
                        &&& cookies@[k].value@ == got.push(pr)[k].1
                        &&& cookies@[k].domain@ == "example.com"@
                        &&& cookies@[k].path@ == seq!['/']
                        &&& cookies@[k].valid_for_secs == STORED_COOKIE_SECS
                    } by {
                        if k < old_cookies.len() {
                            assert(cookies@[k] == old_cookies[k]);
                        }
                    }
                    assert(pairs_of(pieces) == seq![pr] + pairs_of(pieces.drop_first()));
                    assert(got + pairs_of(pieces) =~= got.push(pr) + pairs_of(pieces.drop_first()));
                    got = got.push(pr);
                    assert(cookies_are(cookies@, got, "example.com"@, STORED_COOKIE_SECS));
                }
            },
            None => {
                assert(pairs_of(pieces) == pairs_of(pieces.drop_first()));
            },
        }
        match found {
            Some(p) => {
                proof {
                    assert(pieces.drop_first() =~= split_pieces(cs@.skip(p + 2)));
                }
                start = p + 2;
            },
            None => {
                proof {
                    assert(pieces.drop_first() =~= Seq::<Seq<char>>::empty());
                    assert(all =~= got);
                    assert(cookies_are(cookies@, all, "example.com"@, STORED_COOKIE_SECS));
                    assert(all == stored_pairs(stored@));
                }
                return cookies;
            },
        }
    }
}

// ------------------------------------------------------------------------
// Reading back what was stored
// ------------------------------------------------------------------------

/// `s` holds no `; `.
pub open spec fn has_no_separator(s: Seq<char>) -> bool {
    forall|k: int| !#[trigger] occurs_at(s, k, separator(), false)
}

/// `s` holds no `=`.
pub open spec fn has_no_equals(s: Seq<char>) -> bool {
    forall|k: int| 0 <= k < s.len() ==> #[trigger] s[k] != '='
}

/// A cookie whose name and value survive being stored as text: the name
/// holds no `=`, and neither holds `; `.
pub open spec fn storable(c: SessionCookie) -> bool {
    &&& has_no_equals(c.name@)
    &&& has_no_separator(c.name@)
    &&& has_no_separator(c.value@)
}

proof fn lemma_no_separator_none(a: Seq<char>)
    requires
        has_no_separator(a),
    ensures
        first_occurrence(a, separator(), 0, false) is None,
{
    lemma_first_none(a, separator(), 0, false);
}

proof fn lemma_separator_after(a: Seq<char>, rest: Seq<char>)
    requires
        has_no_separator(a),
    ensures
        first_occurrence(a + separator() + rest, separator(), 0, false) == Some(a.len() as int),
{
    let s = a + separator() + rest;
    let n = a.len() as int;
    assert(s[n] == ';' && s[n + 1] == ' ');
    assert forall|k: int| 0 <= k < separator().len() implies char_matches(
        #[trigger] s[n + k],
        separator()[k],
        false,
    ) by {}
    assert(occurs_at(s, n, separator(), false));
    assert forall|m: int| 0 <= m < n implies !#[trigger] occurs_at(s, m, separator(), false) by {
        if occurs_at(s, m, separator(), false) {
            assert(s[m + 0] == ';');
            assert(s[m + 1] == ' ');
            if m + 1 < n {
                assert forall|k: int| 0 <= k < separator().len() implies char_matches(
                    #[trigger] a[m + k],
                    separator()[k],
                    false,
                ) by {
                    assert(a[m + k] == s[m + k]);
                }
                assert(occurs_at(a, m, separator(), false));
            } else {
                assert(s[m + 1] == ';');
            }
        }
    }
    assert(is_first_from(s, separator(), 0, false, n));
    lemma_first_unique(s, separator(), 0, false, n);
}

proof fn lemma_split_join(ts: Seq<Seq<char>>)
    requires
        ts.len() >= 1,
        forall|k: int| 0 <= k < ts.len() ==> has_no_separator(#[trigger] ts[k]),
    ensures
        split_pieces(join_texts(ts)) == ts,
    decreases ts.len(),
{
    if ts.len() == 1 {
        lemma_no_separator_none(ts[0]);
        assert(split_pieces(ts[0]) == seq![ts[0]]);
        assert(seq![ts[0]] =~= ts);
    } else {
        let rest = ts.drop_first();
        assert forall|k: int| 0 <= k < rest.len() implies has_no_separator(#[trigger] rest[k]) by {
            assert(rest[k] == ts[k + 1]);
        }
        lemma_split_join(rest);
        let s = join_texts(ts);
        let n = ts[0].len() as int;
        assert(s == ts[0] + separator() + join_texts(rest));
        lemma_separator_after(ts[0], join_texts(rest));
        assert(s.take(n) =~= ts[0]);
        assert(s.skip(n + 2) =~= join_texts(rest));
        assert(split_pieces(s) == seq![ts[0]] + split_pieces(join_texts(rest)));
        assert(seq![ts[0]] + rest =~= ts);
    }
}

proof fn lemma_pair_of_text(name: Seq<char>, value: Seq<char>)
    requires
        has_no_equals(name),
    ensures
        pair_of(pair_text(name, value)) == Some((name, value)),
{
    let s = pair_text(name, value);
    let n = name.len() as int;
    assert(s[n] == '=');
    assert forall|k: int| 0 <= k < seq!['='].len() implies char_matches(
        #[trigger] s[n + k],
        seq!['='][k],
        false,
    ) by {}
    assert(occurs_at(s, n, seq!['='], false));
    assert forall|m: int| 0 <= m < n implies !#[trigger] occurs_at(s, m, seq!['='], false) by {
        if occurs_at(s, m, seq!['='], false) {
            assert(char_matches(s[m + 0], seq!['='][0], false));
            assert(s[m] == name[m]);
        }
    }
    assert(is_first_from(s, seq!['='], 0, false, n));
    lemma_first_unique(s, seq!['='], 0, false, n);
    assert(s.take(n) =~= name);
    assert(s.skip(n + 1) =~= value);
}

proof fn lemma_pair_text_no_separator(name: Seq<char>, value: Seq<char>)
    requires
        has_no_separator(name),
        has_no_separator(value),
    ensures
        has_no_separator(pair_text(name, value)),
{
    let s = pair_text(name, value);
    let n = name.len() as int;
    assert forall|m: int| !#[trigger] occurs_at(s, m, separator(), false) by {
        if occurs_at(s, m, separator(), false) {
            assert(s[m + 0] == ';');
            assert(s[m + 1] == ' ');
            if m + 1 < n {
                assert forall|k: int| 0 <= k < separator().len() implies char_matches(
                    #[trigger] name[m + k],
                    separator()[k],
                    false,
                ) by {
                    assert(name[m + k] == s[m + k]);
                }
                assert(occurs_at(name, m, separator(), false));
            } else if m + 1 == n {
                assert(s[m + 1] == '=');
            } else if m == n {
                assert(s[m] == '=');
            } else {
                let j = m - n - 1;
                assert forall|k: int| 0 <= k < separator().len() implies char_matches(
                    #[trigger] value[j + k],
                    separator()[k],
                    false,
                ) by {
                    assert(value[j + k] == s[m + k]);
                }
                assert(occurs_at(value, j, separator(), false));
            }
        }
    }
}

proof fn lemma_pairs_of_texts(cookies: Seq<SessionCookie>)
    requires
        forall|k: int| 0 <= k < cookies.len() ==> storable(#[trigger] cookies[k]),
    ensures
        pairs_of(cookies.map_values(|c: SessionCookie| pair_text(c.name@, c.value@)))
            == name_values(cookies),
    decreases cookies.len(),
{
    let ts = cookies.map_values(|c: SessionCookie| pair_text(c.name@, c.value@));
    if cookies.len() == 0 {
        assert(name_values(cookies) =~= Seq::<(Seq<char>, Seq<char>)>::empty());
    } else {
        let rest = cookies.drop_first();
        assert forall|k: int| 0 <= k < rest.len() implies storable(#[trigger] rest[k]) by {
            assert(rest[k] == cookies[k + 1]);
        }
        lemma_pairs_of_texts(rest);
        assert(ts.drop_first() =~= rest.map_values(|c: SessionCookie| pair_text(c.name@, c.value@)));
        assert(storable(cookies[0]));
        lemma_pair_of_text(cookies[0].name@, cookies[0].value@);
        assert(pairs_of(ts) == seq![(cookies[0].name@, cookies[0].value@)] + pairs_of(
            ts.drop_first(),
        ));
        assert(name_values(cookies) =~= seq![(cookies[0].name@, cookies[0].value@)]
            + name_values(rest));
    }
}

/// Reading back what was stored gives the cookies that were stored: the
/// stored text of cookies whose names hold no `=` and whose names and
/// values hold no `; ` yields their names and values again, in order.
pub proof fn lemma_cookie_header_round_trip(cookies: Seq<SessionCookie>)
    requires
        forall|k: int| 0 <= k < cookies.len() ==> storable(#[trigger] cookies[k]),
    ensures
        stored_pairs(cookie_header_of(cookies)) == name_values(cookies),
{
    let ts = cookies.map_values(|c: SessionCookie| pair_text(c.name@, c.value@));
    lemma_pairs_of_texts(cookies);
    if cookies.len() == 0 {
        let empty = Seq::<char>::empty();
        assert(join_texts(ts) == empty);
        assert(has_no_separator(empty));
        lemma_no_separator_none(empty);
        assert(split_pieces(empty) == seq![empty]);
        lemma_first_none(empty, seq!['='], 0, false);
        assert(pair_of(empty) is None);
        assert(pairs_of(seq![empty]) == pairs_of(seq![empty].drop_first()));
        assert(seq![empty].drop_first() =~= Seq::<Seq<char>>::empty());
        assert(name_values(cookies) =~= Seq::<(Seq<char>, Seq<char>)>::empty());
    } else {
        assert forall|k: int| 0 <= k < ts.len() implies has_no_separator(#[trigger] ts[k]) by {
            assert(storable(cookies[k]));
            lemma_pair_text_no_separator(cookies[k].name@, cookies[k].value@);
        }
        lemma_split_join(ts);
    }
}

// ------------------------------------------------------------------------
// Cookies set by a login response
// ------------------------------------------------------------------------

/// The name and value that a `Set-Cookie` header value carries: the text
/// before its first `;`, cut at its first `=`, each side trimmed of
/// Unicode whitespace; `None` when that text has no `=` or the trimmed
/// name is empty.
pub open spec fn set_cookie_pair(h: Seq<char>) -> Option<(Seq<char>, Seq<char>)> {
    let seg = match first_occurrence(h, seq![';'], 0, false) {
        Some(k) => h.take(k),
        None => h,
    };
    match first_occurrence(seg, seq!['='], 0, false) {
        None => None,
        Some(e) => {
            let n = trimmed(seg.take(e));
            if n.len() == 0 {
                None
            } else {
                Some((n, trimmed(seg.skip(e + 1))))
            }
        },
    }
}

/// `cookie::Cookie::parse` on a `Set-Cookie` header value, keeping the
/// cookie's name and value.  The crate's source takes the text before the
/// first `;`, cuts it at its first `=` and trims both sides (`str::trim`);
/// it fails when there is no `=` or the name is empty, and the attributes
/// after the first `;` never make it fail.  This contract states that
/// reading of the name and value; the attributes the crate also reads are
/// not given back.
#[verifier::external_body]
fn parse_set_cookie(header: &str) -> (r: Option<(String, String)>)
    ensures
        match r {
            Some(p) => set_cookie_pair(header@) == Some((p.0@, p.1@)),
            None => set_cookie_pair(header@) is None,
        },
{
    match cookie::Cookie::parse(header) {
        Ok(c) => Some((c.name().to_string(), c.value().to_string())),
        Err(_) => None,
    }
}

/// The name/value pairs of the headers that parse as cookies, in order.
pub open spec fn set_cookie_pairs(hs: Seq<Seq<char>>) -> Seq<(Seq<char>, Seq<char>)>
    decreases hs.len(),
{
    if hs.len() == 0 {
        Seq::empty()
    } else {
        match set_cookie_pair(hs[0]) {
            Some(p) => seq![p] + set_cookie_pairs(hs.drop_first()),
            None => set_cookie_pairs(hs.drop_first()),
        }
    }
}

/// The cookies a login keeps: those of the `Set-Cookie` headers, or the
/// fallback cookie alone when no header gives one.
pub open spec fn login_pairs(hs: Seq<Seq<char>>, fallback: (Seq<char>, Seq<char>)) -> Seq<
    (Seq<char>, Seq<char>),
> {
    let ps = set_cookie_pairs(hs);
    if ps.len() == 0 {
        seq![fallback]
    } else {
        ps
    }
}

/// The texts of a list of strings.
pub open spec fn texts(v: Seq<String>) -> Seq<Seq<char>> {
    v.map_values(|h: String| h@)
}

/// A session cookie with path `/`.
fn session_cookie(name: String, value: String, domain: &str, valid_for_secs: u64) -> (c:
    SessionCookie)
    ensures
        c.name@ == name@,
        c.value@ == value@,
        c.domain@ == domain@,
        c.path@ == seq!['/'],
        c.valid_for_secs == valid_for_secs,
{
    proof {
        reveal_strlit("/");
    }
    SessionCookie { name, value, domain: domain.to_owned(), path: "/".to_owned(), valid_for_secs }
}

/// The cookies of a login response: one for each `Set-Cookie` header value
/// that parses as a cookie, in order, or the fallback cookie when there is
/// none; each sent to `domain` under path `/` and valid for one day.
pub fn cookies_from_set_cookie_headers(
    headers: &Vec<String>,
    domain: &str,
    fallback_name: &str,
    fallback_value: &str,
) -> (cookies: Vec<SessionCookie>)
    ensures
        cookies_are(
            cookies@,
            login_pairs(texts(headers@), (fallback_name@, fallback_value@)),
            domain@,
            LOGIN_COOKIE_SECS,
        ),
        cookies@.len() >= 1,
{
    let ghost hs = texts(headers@);
    let ghost mut got: Seq<(Seq<char>, Seq<char>)> = Seq::empty();
    let mut cookies: Vec<SessionCookie> = Vec::new();
    let mut i: usize = 0;
    assert(hs.skip(0) =~= hs);
    while i < headers.len()
        invariant
            i <= headers.len(),
            hs == texts(headers@),
            set_cookie_pairs(hs) == got + set_cookie_pairs(hs.skip(i as int)),
            cookies_are(cookies@, got, domain@, LOGIN_COOKIE_SECS),
        decreases headers.len() - i,
    {
        let ghost rest = hs.skip(i as int);
        assert(rest[0] == headers@[i as int]@);
        assert(rest.drop_first() =~= hs.skip(i + 1));
        match parse_set_cookie(headers[i].as_str()) {
            Some(p) => {
                let ghost pr = (p.0@, p.1@);
                let c = session_cookie(p.0, p.1, domain, LOGIN_COOKIE_SECS);
                let ghost old_cookies = cookies@;
                cookies.push(c);
                proof {
                    assert(got + (seq![pr] + set_cookie_pairs(rest.drop_first())) =~= got.push(pr)
                        + set_cookie_pairs(hs.skip(i + 1)));
                    assert forall|k: int| 0 <= k < cookies@.len() implies {
                        &&& (#[trigger] cookies@[k]).name@ == got.push(pr)[k].0
                        &&& cookies@[k].value@ == got.push(pr)[k].1
                        &&& cookies@[k].domain@ == domain@
                        &&& cookies@[k].path@ == seq!['/']
                        &&& cookies@[k].valid_for_secs == LOGIN_COOKIE_SECS
                    } by {
                        if k < old_cookies.len() {
                            assert(cookies@[k] == old_cookies[k]);
                        }
                    }
                    got = got.push(pr);
                }
            },
            None => {},
        }
        i = i + 1;
    }
    assert(set_cookie_pairs(hs.skip(headers.len() as int)) =~= Seq::<(Seq<char>, Seq<char>)>::empty());
    assert(got + Seq::<(Seq<char>, Seq<char>)>::empty() =~= got);
    if cookies.len() == 0 {
        let c = session_cookie(
            fallback_name.to_owned(),
            fallback_value.to_owned(),
            domain,
            LOGIN_COOKIE_SECS,
        );
        cookies.push(c);
        assert(cookies@[0] == c);
    }
    cookies
}

// ------------------------------------------------------------------------
// The cookie store's answers
// ------------------------------------------------------------------------

/// The stored cookies are still valid only while their key's remaining time
/// to live is positive (a key without expiry answers -1, a missing key -2).
pub fn is_live_ttl(ttl: i64) -> (live: bool)
    ensures
        live == (ttl > 0),
{
    ttl > 0
}

/// The store answers `PING` correctly only with `PONG`.
pub fn is_pong(reply: &str) -> (ok: bool)
    ensures
        ok == (reply@ == "PONG"@),
{
    let r = chars_of(reply);
    let pong = chars_of("PONG");
    same_chars(&r, &pong)
}

/// The stored and sent text of a cookie list is `name=value` for each
/// cookie in order, consecutive ones separated by `; `: nothing for no
/// cookie, `name=value` for one, and for more the first cookie's
/// `name=value`, `; `, then the text of the others.
pub proof fn lemma_cookie_header_text(cookies: Seq<SessionCookie>)
    ensures
        cookies.len() == 0 ==> cookie_header_of(cookies) == Seq::<char>::empty(),
        cookies.len() == 1 ==> cookie_header_of(cookies) == cookies[0].name@ + seq!['=']
            + cookies[0].value@,
        cookies.len() > 1 ==> cookie_header_of(cookies) == cookies[0].name@ + seq!['=']
            + cookies[0].value@ + seq![';', ' '] + cookie_header_of(cookies.drop_first()),
{
    let ts = cookies.map_values(|c: SessionCookie| pair_text(c.name@, c.value@));
    if cookies.len() > 1 {
        assert(ts.drop_first() =~= cookies.drop_first().map_values(
            |c: SessionCookie| pair_text(c.name@, c.value@),
        ));
    }
}

/// Cookies that have given pairs, domain, path and lifetime: one cookie
/// per pair, in order, each with the pair's name and value, that domain,
/// path `/` and that lifetime.
pub proof fn lemma_cookies_are_fields(
    cookies: Seq<SessionCookie>,
    pairs: Seq<(Seq<char>, Seq<char>)>,
    domain: Seq<char>,
    valid_for_secs: u64,
)
    requires
        cookies_are(cookies, pairs, domain, valid_for_secs),
    ensures
        cookies.len() == pairs.len(),
        forall|k: int|
            0 <= k < cookies.len() ==> (#[trigger] cookies[k]).name@ == pairs[k].0
                && cookies[k].value@ == pairs[k].1 && cookies[k].domain@ == domain
                && cookies[k].path@ == seq!['/'] && cookies[k].valid_for_secs == valid_for_secs,
{
}

/// The pairs of a list of `Set-Cookie` values grow one header at a time:
/// none for no header, and a header added at the end adds its pair at the
/// end when it parses as a cookie and nothing when it does not.
pub proof fn lemma_set_cookie_pairs_append(hs: Seq<Seq<char>>, h: Seq<char>)
    ensures
        set_cookie_pairs(Seq::<Seq<char>>::empty()) == Seq::<(Seq<char>, Seq<char>)>::empty(),
        set_cookie_pairs(hs.push(h)) == match set_cookie_pair(h) {
            Some(p) => set_cookie_pairs(hs).push(p),
            None => set_cookie_pairs(hs),
        },
    decreases hs.len(),
{
    let hp = hs.push(h);
    assert(set_cookie_pairs(Seq::<Seq<char>>::empty()) == Seq::<(Seq<char>, Seq<char>)>::empty());
    if hs.len() == 0 {
        assert(hp.drop_first() =~= Seq::<Seq<char>>::empty());
        assert(hp[0] == h);
        assert(set_cookie_pairs(hp.drop_first()) == Seq::<(Seq<char>, Seq<char>)>::empty());
        assert(set_cookie_pairs(hs) == Seq::<(Seq<char>, Seq<char>)>::empty());
        match set_cookie_pair(h) {
            Some(p) => {
                assert(set_cookie_pairs(hp) == seq![p] + set_cookie_pairs(hp.drop_first()));
                assert(seq![p] + Seq::<(Seq<char>, Seq<char>)>::empty() =~= Seq::<
                    (Seq<char>, Seq<char>),
                >::empty().push(p));
            },
            None => {
                assert(set_cookie_pairs(hp) == set_cookie_pairs(hp.drop_first()));
            },
        }
    } else {
        let tail = hs.drop_first();
        lemma_set_cookie_pairs_append(tail, h);
        assert(hp.drop_first() =~= tail.push(h));
        assert(hp[0] == hs[0]);
        match set_cookie_pair(hs[0]) {
            Some(p0) => {
                assert(set_cookie_pairs(hp) == seq![p0] + set_cookie_pairs(tail.push(h)));
                assert(set_cookie_pairs(hs) == seq![p0] + set_cookie_pairs(tail));
                match set_cookie_pair(h) {
                    Some(p) => {
                        assert(seq![p0] + set_cookie_pairs(tail).push(p) =~= (seq![p0]
                            + set_cookie_pairs(tail)).push(p));
                    },
                    None => {},
                }
            },
            None => {
                assert(set_cookie_pairs(hp) == set_cookie_pairs(tail.push(h)));
                assert(set_cookie_pairs(hs) == set_cookie_pairs(tail));
            },
        }
    }
}

/// Cookies read back from the store are for `example.com` under path `/`,
/// valid for one hour.
pub proof fn lemma_stored_cookies_for_an_hour(
    cookies: Seq<SessionCookie>,
    pairs: Seq<(Seq<char>, Seq<char>)>,
)
    requires
        cookies_are(cookies, pairs, "example.com"@, STORED_COOKIE_SECS),
    ensures
        forall|k: int|
            0 <= k < cookies.len() ==> (#[trigger] cookies[k]).valid_for_secs == 3600
                && cookies[k].domain@ == "example.com"@ && cookies[k].path@ == seq!['/'],
{
}

} // verus!
