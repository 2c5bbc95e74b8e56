//! `${NAME}` placeholders in configuration text and their substitution from
//! a snapshot of the process environment.
//!
//! A placeholder is `$`, `{`, one or more characters of `[A-Za-z0-9_]`, and
//! `}`.  Placeholders are recognised left to right without overlap: at each
//! position either a placeholder starts there, or the character is ordinary
//! text.

use vstd::prelude::*;
use crate::text::{
    char_matches, chars_of, extend_all, extend_from, occurs_at, occurs_here, slice_chars, string_of,
};

verus! {

/// One variable of an environment snapshot.
#[derive(Clone, Debug)]
pub struct EnvVar {
    pub name: String,
    pub value: String,
}

/// Why a placeholder could not be resolved: the variable it names is not
/// set (or its value is not valid Unicode).
#[derive(Clone, Debug)]
pub struct MissingEnvVar {
    pub name: String,
}

/// A character allowed in a placeholder's variable name.
pub open spec fn is_name_char(c: char) -> bool {
    ('A' <= c && c <= 'Z') || ('a' <= c && c <= 'z') || ('0' <= c && c <= '9') || c == '_'
}

/// The end of the run of name characters that starts at `i`.
pub open spec fn name_end(s: Seq<char>, i: int) -> int
    decreases s.len() - i,
{
    if 0 <= i < s.len() && is_name_char(s[i]) {
        name_end(s, i + 1)
    } else {
        i
    }
}

/// When a placeholder starts at `i`, the index of its closing `}`.
pub open spec fn placeholder_close(s: Seq<char>, i: int) -> Option<int> {
    if 0 <= i && i + 1 < s.len() && s[i] == '$' && s[i + 1] == '{' {
        let e = name_end(s, i + 2);
        if i + 2 < e && e < s.len() && s[e] == '}' {
            Some(e)
        } else {
            None
        }
    } else {
        None
    }
}

/// The value of `name` in the snapshot: the first entry with that name.
pub open spec fn lookup(env: Seq<EnvVar>, name: Seq<char>) -> Option<Seq<char>>
    decreases env.len(),
{
    if env.len() == 0 {
        None
    } else if env[0].name@ == name {
        Some(env[0].value@)
    } else {
        lookup(env.drop_first(), name)
    }
}

/// The text of the placeholder for `name`: `${name}`.
pub open spec fn placeholder_text(name: Seq<char>) -> Seq<char> {
    seq!['$', '{'] + name + seq!['}']
}

/// What a placeholder `s[i..=e]` expands to: the variable's value, or the
/// placeholder itself when the variable is not set.
pub open spec fn expansion(s: Seq<char>, env: Seq<EnvVar>, i: int, e: int) -> Seq<char> {
    match lookup(env, s.subrange(i + 2, e)) {
        Some(v) => v,
        None => s.subrange(i, e + 1),
    }
}

/// `s[i..]` with every placeholder expanded.
pub open spec fn expand_from(s: Seq<char>, env: Seq<EnvVar>, i: int) -> Seq<char>
    decreases s.len() - i,
{
    if i < 0 || i >= s.len() {
        Seq::empty()
    } else {
        let e = name_end(s, i + 2);
        if i + 1 < s.len() && s[i] == '$' && s[i + 1] == '{' && i + 2 < e && e < s.len() && s[e]
            == '}' {
            expansion(s, env, i, e) + expand_from(s, env, e + 1)
        } else {
            seq![s[i]] + expand_from(s, env, i + 1)
        }
    }
}

/// The variable names of the placeholders of `s[i..]`, in order.
pub open spec fn names_from(s: Seq<char>, i: int) -> Seq<Seq<char>>
    decreases s.len() - i,
{
    if i < 0 || i >= s.len() {
        Seq::empty()
    } else {
        let e = name_end(s, i + 2);
        if i + 1 < s.len() && s[i] == '$' && s[i + 1] == '{' && i + 2 < e && e < s.len() && s[e]
            == '}' {
            seq![s.subrange(i + 2, e)] + names_from(s, e + 1)
        } else {
            names_from(s, i + 1)
        }
    }
}

/// `str::replace`: `s[i..]` with every occurrence of `pat`, found left to
/// right without overlap, replaced by `rep`.
pub open spec fn replace_from(s: Seq<char>, pat: Seq<char>, rep: Seq<char>, i: int) -> Seq<char>
    decreases s.len() - i,
{
    if i < 0 || i >= s.len() {
        Seq::empty()
    } else if pat.len() > 0 && occurs_at(s, i, pat, false) {
        rep + replace_from(s, pat, rep, i + pat.len())
    } else {
        seq![s[i]] + replace_from(s, pat, rep, i + 1)
    }
}

/// Applies, in order, the replacement of every placeholder of each name in
/// `names` by that variable's value; fails at the first name that is not
/// set.
pub open spec fn substitute_each(text: Seq<char>, names: Seq<Seq<char>>, env: Seq<EnvVar>) -> Result<
    Seq<char>,
    Seq<char>,
>
    decreases names.len(),
{
    if names.len() == 0 {
        Ok(text)
    } else {
        match lookup(env, names[0]) {
            None => Err(names[0]),
            Some(v) => substitute_each(
                replace_from(text, placeholder_text(names[0]), v, 0),
                names.drop_first(),
                env,
            ),
        }
    }
}

/// Whether `c` may appear in a variable name.
fn is_name_char_exec(c: char) -> (r: bool)
    ensures
        r == is_name_char(c),
{
    ('A' <= c && c <= 'Z') || ('a' <= c && c <= 'z') || ('0' <= c && c <= '9') || c == '_'
}

/// The end of the run of name characters in `cs` that starts at `i`.
fn name_end_exec(cs: &Vec<char>, i: usize) -> (r: usize)
    requires
        i <= cs.len(),
    ensures
        r as int == name_end(cs@, i as int),
{
    let mut j = i;
    while j < cs.len() && is_name_char_exec(cs[j])
        invariant
            i <= j <= cs.len(),
            name_end(cs@, i as int) == name_end(cs@, j as int),
        decreases cs.len() - j,
    {
        j = j + 1;
    }
    j
}

/// When a placeholder starts at `i`, the index of its closing `}`.
pub fn placeholder_at(cs: &Vec<char>, i: usize) -> (r: Option<usize>)
    requires
        i <= cs.len(),
    ensures
        match r {
            Some(e) => placeholder_close(cs@, i as int) == Some(e as int),
            None => placeholder_close(cs@, i as int) is None,
        },
{
    if i < cs.len() && cs.len() - i > 1 && cs[i] == '$' && cs[i + 1] == '{' {
        let e = name_end_exec(cs, i + 2);
        if i + 2 < e && e < cs.len() && cs[e] == '}' {
            return Some(e);
        }
    }
    None
}

/// The value of `name` in `env`, if set.
pub fn lookup_env<'a>(env: &'a Vec<EnvVar>, name: &Vec<char>) -> (r: Option<&'a String>)
    ensures
        match r {
            Some(v) => lookup(env@, name@) == Some(v@),
            None => lookup(env@, name@) is None,
        },
{
    let mut i: usize = 0;
    assert(env@.skip(0) =~= env@);
    while i < env.len()
        invariant
            i <= env.len(),
            lookup(env@, name@) == lookup(env@.skip(i as int), name@),
        decreases env.len() - i,
    {
        let entry_name = chars_of(env[i].name.as_str());
        assert(env@.skip(i as int)[0] == env@[i as int]);
        if entry_name.len() == name.len() && occurs_here(&entry_name, 0, name, false) {
            assert forall|k: int| 0 <= k < name@.len() implies entry_name@[k] == name@[k] by {
                assert(char_matches(entry_name@[0 + k], name@[k], false));
            }
            assert(entry_name@ =~= name@);
            return Some(&env[i].value);
        }
        assert(entry_name@ != name@) by {
            if entry_name@ == name@ {
                assert(occurs_at(entry_name@, 0, name@, false));
            }
        }
        assert(env@.skip(i as int).drop_first() =~= env@.skip(i + 1));
        i = i + 1;
    }
    None
}

/// `s` with every `${NAME}` placeholder replaced by the value of `NAME` in
/// `env`; a placeholder whose variable is not set is kept as it is.
pub fn replace_env_vars(s: &str, env: &Vec<EnvVar>) -> (out: String)
    ensures
        out@ == expand_from(s@, env@, 0),
{
    let cs = chars_of(s);
    let mut out: Vec<char> = Vec::new();
    let mut i: usize = 0;
    while i < cs.len()
        invariant
            i <= cs.len(),
            expand_from(cs@, env@, 0) == out@ + expand_from(cs@, env@, i as int),
        decreases cs.len() - i,
    {
        let ghost before = out@;
        match placeholder_at(&cs, i) {
            Some(e) => {
                let name = slice_chars(&cs, i + 2, e);
                match lookup_env(env, &name) {
                    Some(v) => {
                        let value = chars_of(v.as_str());
                        extend_all(&mut out, &value);
                    },
                    None => {
                        extend_from(&mut out, &cs, i, e + 1);
                    },
                }
                assert(out@ == before + expansion(cs@, env@, i as int, e as int));
                assert(before + (expansion(cs@, env@, i as int, e as int) + expand_from(
                    cs@,
                    env@,
                    e + 1,
                )) =~= out@ + expand_from(cs@, env@, e + 1));
                i = e + 1;
            },
            None => {
                out.push(cs[i]);
                assert(before + (seq![cs@[i as int]] + expand_from(cs@, env@, i + 1)) =~= out@
                    + expand_from(cs@, env@, i + 1));
                i = i + 1;
            },
        }
    }
    assert(out@ + Seq::<char>::empty() =~= out@);
    string_of(&out)
}

/// `s[..]` with every occurrence of `pat` replaced by `rep` (`str::replace`).
fn replace_all(s: &Vec<char>, pat: &Vec<char>, rep: &Vec<char>) -> (out: Vec<char>)
    ensures
        out@ == replace_from(s@, pat@, rep@, 0),
{
    let mut out: Vec<char> = Vec::new();
    let mut i: usize = 0;
    while i < s.len()
        invariant
            i <= s.len(),
            replace_from(s@, pat@, rep@, 0) == out@ + replace_from(s@, pat@, rep@, i as int),
        decreases s.len() - i,
    {
        let ghost before = out@;
        if pat.len() > 0 && pat.len() <= s.len() - i && occurs_here(s, i, pat, false) {
            extend_all(&mut out, rep);
            assert(before + (rep@ + replace_from(s@, pat@, rep@, i + pat.len())) =~= out@
                + replace_from(s@, pat@, rep@, i + pat.len()));
            i = i + pat.len();
        } else {
            assert(!(pat@.len() > 0 && occurs_at(s@, i as int, pat@, false)));
            out.push(s[i]);
            assert(before + (seq![s@[i as int]] + replace_from(s@, pat@, rep@, i + 1)) =~= out@
                + replace_from(s@, pat@, rep@, i + 1));
            i = i + 1;
        }
    }
    assert(out@ + Seq::<char>::empty() =~= out@);
    out
}

/// The variable names of the placeholders of `cs`, in order.
fn placeholder_names(cs: &Vec<char>) -> (names: Vec<Vec<char>>)
    ensures
        names@.map_values(|v: Vec<char>| v@) == names_from(cs@, 0),
{
    let mut names: Vec<Vec<char>> = Vec::new();
    let mut i: usize = 0;
    while i < cs.len()
        invariant
            i <= cs.len(),
            names_from(cs@, 0) == names@.map_values(|v: Vec<char>| v@) + names_from(
                cs@,
                i as int,
            ),
        decreases cs.len() - i,
    {
        let ghost before = names@.map_values(|v: Vec<char>| v@);
        match placeholder_at(&cs, i) {
            Some(e) => {
                let name = slice_chars(cs, i + 2, e);
                names.push(name);
                assert(names@.map_values(|v: Vec<char>| v@) =~= before.push(
                    cs@.subrange(i + 2, e as int),
                ));
                assert(before + (seq![cs@.subrange(i + 2, e as int)] + names_from(
                    cs@,
                    e + 1,
                )) =~= names@.map_values(|v: Vec<char>| v@) + names_from(cs@, e + 1));
                i = e + 1;
            },
            None => {
                i = i + 1;
            },
        }
    }
    assert(names@.map_values(|v: Vec<char>| v@) + Seq::<Seq<char>>::empty() =~= names@.map_values(
        |v: Vec<char>| v@,
    ));
    names
}

/// `s` with the placeholder of each variable it names replaced, one
/// variable after the other in the order the placeholders appear, by the
/// variable's value (each replacement acting on the text the previous ones
/// left); fails with the first variable that is not set.
pub fn replace_env_var(s: &str, env: &Vec<EnvVar>) -> (r: Result<String, MissingEnvVar>)
    ensures
        match r {
            Ok(t) => substitute_each(s@, names_from(s@, 0), env@) == Ok::<Seq<char>, Seq<char>>(t@),
            Err(e) => substitute_each(s@, names_from(s@, 0), env@) == Err::<Seq<char>, Seq<char>>(
                e.name@,
            ),
        },
{
    let cs = chars_of(s);
    let names = placeholder_names(&cs);
    let ghost all = names@.map_values(|v: Vec<char>| v@);
    let mut text = cs;
    let mut k: usize = 0;
    assert(all.skip(0) =~= all);
    while k < names.len()
        invariant
            k <= names.len(),
            all == names@.map_values(|v: Vec<char>| v@),
            all == names_from(s@, 0),
            substitute_each(s@, all, env@) == substitute_each(text@, all.skip(k as int), env@),
        decreases names.len() - k,
    {
        assert(all.skip(k as int)[0] == names@[k as int]@);
        assert(all.skip(k as int).drop_first() =~= all.skip(k + 1));
        match lookup_env(env, &names[k]) {
            None => {
                return Err(MissingEnvVar { name: string_of(&names[k]) });
            },
            Some(v) => {
                let value = chars_of(v.as_str());
                let mut pat: Vec<char> = Vec::new();
                pat.push('$');
                pat.push('{');
                extend_all(&mut pat, &names[k]);
                pat.push('}');
                assert(pat@ =~= placeholder_text(names@[k as int]@));
                text = replace_all(&text, &pat, &value);
            },
        }
        k = k + 1;
    }
    Ok(string_of(&text))
}

// ------------------------------------------------------------------------
// Laws
// ------------------------------------------------------------------------

proof fn lemma_expand_empty_env_from(s: Seq<char>, i: int)
    requires
        0 <= i <= s.len(),
    ensures
        expand_from(s, Seq::<EnvVar>::empty(), i) == s.subrange(i, s.len() as int),
    decreases s.len() - i,
{
    if i < s.len() {
        let e = name_end(s, i + 2);
        if i + 1 < s.len() && s[i] == '$' && s[i + 1] == '{' && i + 2 < e && e < s.len() && s[e]
            == '}' {
            lemma_expand_empty_env_from(s, e + 1);
            assert(s.subrange(i, e + 1) + s.subrange(e + 1, s.len() as int) =~= s.subrange(
                i,
                s.len() as int,
            ));
        } else {
            lemma_expand_empty_env_from(s, i + 1);
            assert(seq![s[i]] + s.subrange(i + 1, s.len() as int) =~= s.subrange(
                i,
                s.len() as int,
            ));
        }
    } else {
        assert(s.subrange(i, s.len() as int) =~= Seq::<char>::empty());
    }
}

/// With no variable set, expanding placeholders leaves any text unchanged:
/// every placeholder is kept as written.
pub proof fn lemma_expand_with_empty_env(s: Seq<char>)
    ensures
        expand_from(s, Seq::<EnvVar>::empty(), 0) == s,
{
    lemma_expand_empty_env_from(s, 0);
    assert(s.subrange(0, s.len() as int) =~= s);
}

proof fn lemma_expand_no_placeholder_from(s: Seq<char>, env: Seq<EnvVar>, i: int)
    requires
        0 <= i <= s.len(),
        names_from(s, i).len() == 0,
    ensures
        expand_from(s, env, i) == s.subrange(i, s.len() as int),
    decreases s.len() - i,
{
    if i < s.len() {
        let e = name_end(s, i + 2);
        if i + 1 < s.len() && s[i] == '$' && s[i + 1] == '{' && i + 2 < e && e < s.len() && s[e]
            == '}' {
            assert(names_from(s, i).len() > 0);
        } else {
            lemma_expand_no_placeholder_from(s, env, i + 1);
            assert(seq![s[i]] + s.subrange(i + 1, s.len() as int) =~= s.subrange(
                i,
                s.len() as int,
            ));
        }
    } else {
        assert(s.subrange(i, s.len() as int) =~= Seq::<char>::empty());
    }
}

/// Text without placeholders is left unchanged, whatever the environment.
pub proof fn lemma_expand_without_placeholders(s: Seq<char>, env: Seq<EnvVar>)
    requires
        names_from(s, 0).len() == 0,
    ensures
        expand_from(s, env, 0) == s,
{
    lemma_expand_no_placeholder_from(s, env, 0);
    assert(s.subrange(0, s.len() as int) =~= s);
}

/// Strict substitution succeeds exactly when every named variable is set,
/// and when it fails it names a variable of the list that is not set.
pub proof fn lemma_substitute_each_fails_iff_unset(
    text: Seq<char>,
    names: Seq<Seq<char>>,
    env: Seq<EnvVar>,
)
    ensures
        substitute_each(text, names, env) is Ok <==> (forall|k: int|
            0 <= k < names.len() ==> #[trigger] lookup(env, names[k]) is Some),
        substitute_each(text, names, env) is Err ==> names.contains(
            substitute_each(text, names, env)->Err_0,
        ) && lookup(env, substitute_each(text, names, env)->Err_0) is None,
    decreases names.len(),
{
    if names.len() > 0 {
        match lookup(env, names[0]) {
            None => {
                assert(names[0] == names[0]);
            },
            Some(v) => {
                let next = replace_from(text, placeholder_text(names[0]), v, 0);
                lemma_substitute_each_fails_iff_unset(next, names.drop_first(), env);
                assert forall|k: int| 0 <= k < names.drop_first().len() implies names.drop_first()[k]
                    == names[k + 1] by {}
                if substitute_each(text, names, env) is Ok {
                    assert forall|k: int| 0 <= k < names.len() implies #[trigger] lookup(
                        env,
                        names[k],
                    ) is Some by {
                        if k > 0 {
                            assert(lookup(env, names.drop_first()[k - 1]) is Some);
                        }
                    }
                } else {
                    let n = substitute_each(text, names, env)->Err_0;
                    let j = choose|j: int| 0 <= j < names.drop_first().len() && names.drop_first()[j] == n;
                    assert(names[j + 1] == n);
                    if forall|k: int| 0 <= k < names.len() ==> #[trigger] lookup(env, names[k]) is Some {
                        assert(lookup(env, names[j + 1]) is Some);
                    }
                }
            },
        }
    }
}

// ------------------------------------------------------------------------
// Strict and lenient substitution agree on well-formed text
// ------------------------------------------------------------------------

/// `s` holds no `$`.
pub open spec fn no_dollar(s: Seq<char>) -> bool {
    forall|k: int| 0 <= k < s.len() ==> #[trigger] s[k] != '$'
}

/// A variable name: one or more name characters.
pub open spec fn valid_name(n: Seq<char>) -> bool {
    n.len() > 0 && forall|j: int| 0 <= j < n.len() ==> is_name_char(#[trigger] n[j])
}

/// Every `$` of `s` starts a placeholder.
pub open spec fn dollars_open_placeholders(s: Seq<char>) -> bool {
    forall|i: int| 0 <= i < s.len() && #[trigger] s[i] == '$' ==> placeholder_close(s, i) is Some
}

/// `name` is set in `env` to a value without `$`.
pub open spec fn set_without_dollar(env: Seq<EnvVar>, name: Seq<char>) -> bool {
    lookup(env, name) is Some && no_dollar(lookup(env, name)->0)
}

/// A piece of text with placeholders: a literal (one character of the text)
/// or the name of a placeholder.
pub enum Token {
    Lit(Seq<char>),
    Ph(Seq<char>),
}

/// `s[i..]` cut into literal characters and placeholders, as expansion
/// reads it.
pub open spec fn tokens_from(s: Seq<char>, i: int) -> Seq<Token>
    decreases s.len() - i,
{
    if i < 0 || i >= s.len() {
        Seq::empty()
    } else {
        match placeholder_close(s, i) {
            Some(e) => seq![Token::Ph(s.subrange(i + 2, e))] + tokens_from(s, e + 1),
            None => seq![Token::Lit(s.subrange(i, i + 1))] + tokens_from(s, i + 1),
        }
    }
}

/// The text of a token once the variables in `done` have been substituted.
pub open spec fn piece(t: Token, done: Set<Seq<char>>, env: Seq<EnvVar>) -> Seq<char> {
    match t {
        Token::Lit(t) => t,
        Token::Ph(n) => if done.contains(n) && lookup(env, n) is Some {
            lookup(env, n)->0
        } else {
            placeholder_text(n)
        },
    }
}

/// The text of tokens once the variables in `done` have been substituted.
pub open spec fn render(ts: Seq<Token>, done: Set<Seq<char>>, env: Seq<EnvVar>) -> Seq<char>
    decreases ts.len(),
{
    if ts.len() == 0 {
        Seq::empty()
    } else {
        piece(ts[0], done, env) + render(ts.drop_first(), done, env)
    }
}

/// No literal is `$` and every placeholder names a valid variable.
pub open spec fn tokens_ok(ts: Seq<Token>) -> bool {
    forall|k: int|
        0 <= k < ts.len() ==> match #[trigger] ts[k] {
            Token::Lit(t) => no_dollar(t),
            Token::Ph(m) => valid_name(m),
        }
}

proof fn lemma_name_end_bounds(s: Seq<char>, i: int)
    requires
        0 <= i <= s.len(),
    ensures
        i <= name_end(s, i) <= s.len(),
        forall|k: int| i <= k < name_end(s, i) ==> is_name_char(#[trigger] s[k]),
    decreases s.len() - i,
{
    if i < s.len() && is_name_char(s[i]) {
        lemma_name_end_bounds(s, i + 1);
    }
}

/// `str::replace` read from index `i` is `str::replace` of the suffix.
proof fn lemma_replace_shift(s: Seq<char>, pat: Seq<char>, rep: Seq<char>, i: int)
    requires
        0 <= i <= s.len(),
    ensures
        replace_from(s, pat, rep, i) == replace_from(s.skip(i), pat, rep, 0),
    decreases s.len() - i,
{
    let t = s.skip(i);
    if i < s.len() {
        assert(occurs_at(s, i, pat, false) == occurs_at(t, 0, pat, false)) by {
            if occurs_at(s, i, pat, false) {
                assert forall|k: int| 0 <= k < pat.len() implies char_matches(
                    #[trigger] t[0 + k],
                    pat[k],
                    false,
                ) by {
                    assert(t[0 + k] == s[i + k]);
                }
            }
            if occurs_at(t, 0, pat, false) {
                assert forall|k: int| 0 <= k < pat.len() implies char_matches(
                    #[trigger] s[i + k],
                    pat[k],
                    false,
                ) by {
                    assert(t[0 + k] == s[i + k]);
                }
            }
        }
        if pat.len() > 0 && occurs_at(s, i, pat, false) {
            lemma_replace_shift(s, pat, rep, i + pat.len());
            lemma_replace_shift(t, pat, rep, pat.len() as int);
            assert(t.skip(pat.len() as int) =~= s.skip(i + pat.len()));
        } else {
            lemma_replace_shift(s, pat, rep, i + 1);
            lemma_replace_shift(t, pat, rep, 1);
            assert(t.skip(1) =~= s.skip(i + 1));
            assert(t[0] == s[i]);
        }
    }
}

/// Where the text holds no `$`, a pattern starting with `$` finds nothing
/// to replace.
proof fn lemma_replace_plain(s: Seq<char>, pat: Seq<char>, rep: Seq<char>, i: int, j: int)
    requires
        pat.len() > 0,
        pat[0] == '$',
        0 <= i <= j <= s.len(),
        forall|p: int| i <= p < j ==> #[trigger] s[p] != '$',
    ensures
        replace_from(s, pat, rep, i) == s.subrange(i, j) + replace_from(s, pat, rep, j),
    decreases j - i,
{
    if i < j {
        assert(!occurs_at(s, i, pat, false)) by {
            assert(!char_matches(s[i + 0], pat[0], false));
        }
        lemma_replace_plain(s, pat, rep, i + 1, j);
        assert(seq![s[i]] + (s.subrange(i + 1, j) + replace_from(s, pat, rep, j)) =~= s.subrange(
            i,
            j,
        ) + replace_from(s, pat, rep, j));
    } else {
        assert(s.subrange(i, j) =~= Seq::<char>::empty());
        assert(Seq::<char>::empty() + replace_from(s, pat, rep, j) =~= replace_from(
            s,
            pat,
            rep,
            j,
        ));
    }
}

/// Two different valid names: the placeholder of one does not start with
/// the placeholder of the other.
proof fn lemma_placeholders_differ(m: Seq<char>, n: Seq<char>, rest: Seq<char>)
    requires
        valid_name(m),
        valid_name(n),
        m != n,
    ensures
        !occurs_at(placeholder_text(m) + rest, 0, placeholder_text(n), false),
{
    let r = placeholder_text(m) + rest;
    let pat = placeholder_text(n);
    let a = m.len() as int;
    let b = n.len() as int;
    if occurs_at(r, 0, pat, false) {
        if b < a {
            assert(char_matches(r[0 + (b + 2)], pat[b + 2], false));
            assert(r[b + 2] == m[b]);
            assert(is_name_char(m[b]));
        } else if a < b {
            assert(char_matches(r[0 + (a + 2)], pat[a + 2], false));
            assert(r[a + 2] == '}');
            assert(pat[a + 2] == n[a]);
            assert(is_name_char(n[a]));
        } else {
            assert forall|j: int| 0 <= j < a implies m[j] == n[j] by {
                assert(char_matches(r[0 + (j + 2)], pat[j + 2], false));
                assert(r[j + 2] == m[j]);
                assert(pat[j + 2] == n[j]);
            }
            assert(m =~= n);
        }
    }
}

/// Replacing the placeholder of `n` in rendered tokens substitutes `n`.
proof fn lemma_replace_render(
    ts: Seq<Token>,
    done: Set<Seq<char>>,
    env: Seq<EnvVar>,
    n: Seq<char>,
)
    requires
        tokens_ok(ts),
        valid_name(n),
        set_without_dollar(env, n),
        forall|m: Seq<char>| #[trigger] done.contains(m) ==> set_without_dollar(env, m),
    ensures
        replace_from(render(ts, done, env), placeholder_text(n), lookup(env, n)->0, 0) == render(
            ts,
            done.insert(n),
            env,
        ),
    decreases ts.len(),
{
    let pat = placeholder_text(n);
    let v = lookup(env, n)->0;
    let r = render(ts, done, env);
    if ts.len() == 0 {
        assert(r.len() == 0);
    } else {
        let rest = ts.drop_first();
        assert(tokens_ok(rest)) by {
            assert forall|k: int| 0 <= k < rest.len() implies match #[trigger] rest[k] {
                Token::Lit(t) => no_dollar(t),
                Token::Ph(m) => valid_name(m),
            } by {
                assert(rest[k] == ts[k + 1]);
            }
        }
        let p = piece(ts[0], done, env);
        let p2 = piece(ts[0], done.insert(n), env);
        let tail = render(rest, done, env);
        assert(r == p + tail);
        assert(pat[0] == '$');
        // The piece of the first token turns into its substituted form.
        assert(replace_from(r, pat, v, 0) == p2 + replace_from(r, pat, v, p.len() as int)) by {
            match ts[0] {
                Token::Lit(lt) => {
                    assert(no_dollar(lt)) by {
                        assert(ts[0] == Token::Lit(lt));
                    }
                    assert(p == lt && p2 == lt);
                    assert forall|q: int| 0 <= q < p.len() implies #[trigger] r[q] != '$' by {
                        assert(r[q] == p[q]);
                    }
                    lemma_replace_plain(r, pat, v, 0, p.len() as int);
                    assert(r.subrange(0, p.len() as int) =~= p);
                },
                Token::Ph(m) => {
                    assert(valid_name(m)) by {
                        assert(ts[0] == Token::Ph(m));
                    }
                    if done.contains(m) {
                        assert(set_without_dollar(env, m));
                        assert(p == lookup(env, m)->0);
                        assert(p2 == p);
                        lemma_replace_plain(r, pat, v, 0, p.len() as int);
                        assert(r.subrange(0, p.len() as int) =~= p);
                    } else if m == n {
                        assert(p == pat);
                        assert(p2 == v);
                        assert forall|k: int| 0 <= k < pat.len() implies char_matches(
                            #[trigger] r[0 + k],
                            pat[k],
                            false,
                        ) by {
                            assert(r[k] == p[k]);
                        }
                        assert(occurs_at(r, 0, pat, false));
                    } else {
                        assert(p == placeholder_text(m));
                        assert(p2 == p);
                        lemma_placeholders_differ(m, n, tail);
                        assert(!occurs_at(r, 0, pat, false));
                        assert forall|q: int| 1 <= q < p.len() implies #[trigger] r[q] != '$' by {
                            assert(r[q] == p[q]);
                            if 2 <= q < m.len() + 2 {
                                assert(p[q] == m[q - 2]);
                                assert(is_name_char(m[q - 2]));
                            }
                        }
                        lemma_replace_plain(r, pat, v, 1, p.len() as int);
                        assert(seq![r[0]] + (r.subrange(1, p.len() as int) + replace_from(
                            r,
                            pat,
                            v,
                            p.len() as int,
                        )) =~= p + replace_from(r, pat, v, p.len() as int));
                    }
                },
            }
        }
        lemma_replace_shift(r, pat, v, p.len() as int);
        assert(r.skip(p.len() as int) =~= tail);
        assert forall|m: Seq<char>| #[trigger] done.contains(m) implies set_without_dollar(
            env,
            m,
        ) by {}
        lemma_replace_render(rest, done, env, n);
    }
}

/// Strict substitution of a list of set names over rendered tokens.
proof fn lemma_substitute_render(
    ts: Seq<Token>,
    done: Set<Seq<char>>,
    names: Seq<Seq<char>>,
    env: Seq<EnvVar>,
)
    requires
        tokens_ok(ts),
        forall|k: int|
            0 <= k < names.len() ==> valid_name(#[trigger] names[k]) && set_without_dollar(
                env,
                names[k],
            ),
        forall|m: Seq<char>| #[trigger] done.contains(m) ==> set_without_dollar(env, m),
    ensures
        substitute_each(render(ts, done, env), names, env) == Ok::<Seq<char>, Seq<char>>(
            render(ts, done.union(names.to_set()), env),
        ),
    decreases names.len(),
{
    if names.len() == 0 {
        assert(done.union(names.to_set()) =~= done);
    } else {
        let n = names[0];
        let rest = names.drop_first();
        assert(valid_name(n) && set_without_dollar(env, n));
        lemma_replace_render(ts, done, env, n);
        let done2 = done.insert(n);
        assert forall|m: Seq<char>| #[trigger] done2.contains(m) implies set_without_dollar(
            env,
            m,
        ) by {}
        assert forall|k: int| 0 <= k < rest.len() implies valid_name(#[trigger] rest[k])
            && set_without_dollar(env, rest[k]) by {
            assert(rest[k] == names[k + 1]);
        }
        lemma_substitute_render(ts, done2, rest, env);
        assert(done2.union(rest.to_set()) =~= done.union(names.to_set())) by {
            assert forall|m: Seq<char>| done2.union(rest.to_set()).contains(m) <==> done.union(
                names.to_set(),
            ).contains(m) by {
                if rest.contains(m) {
                    let j = choose|j: int| 0 <= j < rest.len() && rest[j] == m;
                    assert(names[j + 1] == m);
                }
                if names.contains(m) && m != n {
                    let j = choose|j: int| 0 <= j < names.len() && names[j] == m;
                    assert(j > 0);
                    assert(rest[j - 1] == m);
                }
                if m == n {
                    assert(names[0] == m);
                    assert(names.contains(m));
                }
            }
        }
    }
}

/// The first token of `s[i..]` when no placeholder starts at `i`.
proof fn lemma_tokens_lit(s: Seq<char>, i: int)
    requires
        0 <= i < s.len(),
        placeholder_close(s, i) is None,
    ensures
        tokens_from(s, i).len() == tokens_from(s, i + 1).len() + 1,
        tokens_from(s, i)[0] == Token::Lit(s.subrange(i, i + 1)),
        tokens_from(s, i).drop_first() == tokens_from(s, i + 1),
{
    let rest = tokens_from(s, i + 1);
    let lit: Seq<Token> = seq![Token::Lit(s.subrange(i, i + 1))] + rest;
    assert(tokens_from(s, i) == lit);
    assert(lit.drop_first() =~= rest);
}

/// The first token of `s[i..]` when a placeholder closing at `e` starts at
/// `i`.
proof fn lemma_tokens_ph(s: Seq<char>, i: int, e: int)
    requires
        0 <= i < s.len(),
        placeholder_close(s, i) == Some(e),
    ensures
        tokens_from(s, i).len() == tokens_from(s, e + 1).len() + 1,
        tokens_from(s, i)[0] == Token::Ph(s.subrange(i + 2, e)),
        tokens_from(s, i).drop_first() == tokens_from(s, e + 1),
{
    let rest = tokens_from(s, e + 1);
    let ph: Seq<Token> = seq![Token::Ph(s.subrange(i + 2, e))] + rest;
    assert(tokens_from(s, i) == ph);
    assert(ph.drop_first() =~= rest);
}

/// Before any substitution, rendering gives back the text.
proof fn lemma_render_nothing_done(s: Seq<char>, env: Seq<EnvVar>, i: int)
    requires
        0 <= i <= s.len(),
    ensures
        render(tokens_from(s, i), Set::<Seq<char>>::empty(), env) == s.subrange(
            i,
            s.len() as int,
        ),
    decreases s.len() - i,
{
    if i < s.len() {
        match placeholder_close(s, i) {
            Some(e) => {
                lemma_tokens_ph(s, i, e);
                lemma_render_nothing_done(s, env, e + 1);
                assert(placeholder_text(s.subrange(i + 2, e)) =~= s.subrange(i, e + 1));
                assert(s.subrange(i, e + 1) + s.subrange(e + 1, s.len() as int) =~= s.subrange(
                    i,
                    s.len() as int,
                ));
            },
            None => {
                lemma_tokens_lit(s, i);
                lemma_render_nothing_done(s, env, i + 1);
                assert(s.subrange(i, i + 1) + s.subrange(i + 1, s.len() as int) =~= s.subrange(
                    i,
                    s.len() as int,
                ));
            },
        }
    } else {
        assert(s.subrange(i, s.len() as int) =~= Seq::<char>::empty());
    }
}

/// With every variable of `s[i..]` done and set, rendering is expansion.
proof fn lemma_render_all_done(s: Seq<char>, env: Seq<EnvVar>, done: Set<Seq<char>>, i: int)
    requires
        0 <= i <= s.len(),
        forall|k: int|
            0 <= k < names_from(s, i).len() ==> done.contains(#[trigger] names_from(s, i)[k])
                && lookup(env, names_from(s, i)[k]) is Some,
    ensures
        render(tokens_from(s, i), done, env) == expand_from(s, env, i),
    decreases s.len() - i,
{
    if i < s.len() {
        match placeholder_close(s, i) {
            Some(e) => {
                lemma_tokens_ph(s, i, e);
                let nm = s.subrange(i + 2, e);
                assert(names_from(s, i) == seq![nm] + names_from(s, e + 1));
                assert(names_from(s, i)[0] == nm);
                assert forall|k: int| 0 <= k < names_from(s, e + 1).len() implies done.contains(
                    #[trigger] names_from(s, e + 1)[k],
                ) && lookup(env, names_from(s, e + 1)[k]) is Some by {
                    assert(names_from(s, e + 1)[k] == names_from(s, i)[k + 1]);
                }
                lemma_render_all_done(s, env, done, e + 1);
            },
            None => {
                lemma_tokens_lit(s, i);
                assert(names_from(s, i) == names_from(s, i + 1));
                lemma_render_all_done(s, env, done, i + 1);
                assert(s.subrange(i, i + 1) =~= seq![s[i]]);
            },
        }
    }
}

/// The tokens of well-formed text, and the names it holds, are valid.
proof fn lemma_tokens_valid(s: Seq<char>, i: int)
    requires
        0 <= i <= s.len(),
        dollars_open_placeholders(s),
    ensures
        tokens_ok(tokens_from(s, i)),
        forall|k: int| 0 <= k < names_from(s, i).len() ==> valid_name(#[trigger] names_from(s, i)[k]),
    decreases s.len() - i,
{
    let ts = tokens_from(s, i);
    if i < s.len() {
        match placeholder_close(s, i) {
            Some(e) => {
                lemma_tokens_ph(s, i, e);
                lemma_tokens_valid(s, e + 1);
                lemma_name_end_bounds(s, i + 2);
                let nm = s.subrange(i + 2, e);
                assert(valid_name(nm)) by {
                    assert forall|j: int| 0 <= j < nm.len() implies is_name_char(
                        #[trigger] nm[j],
                    ) by {
                        assert(nm[j] == s[i + 2 + j]);
                    }
                }
                let rest = tokens_from(s, e + 1);
                assert forall|k: int| 0 <= k < ts.len() implies match #[trigger] ts[k] {
                    Token::Lit(lt) => no_dollar(lt),
                    Token::Ph(m) => valid_name(m),
                } by {
                    if k > 0 {
                        assert(ts[k] == ts.drop_first()[k - 1]);
                        assert(ts[k] == rest[k - 1]);
                    }
                }
                let ns = names_from(s, i);
                assert(ns == seq![nm] + names_from(s, e + 1));
                assert forall|k: int| 0 <= k < ns.len() implies valid_name(#[trigger] ns[k]) by {
                    if k > 0 {
                        assert(ns[k] == names_from(s, e + 1)[k - 1]);
                    }
                }
            },
            None => {
                lemma_tokens_lit(s, i);
                lemma_tokens_valid(s, i + 1);
                assert(s[i] != '$') by {
                    if s[i] == '$' {
                        assert(placeholder_close(s, i) is Some);
                    }
                }
                let lt = s.subrange(i, i + 1);
                assert(no_dollar(lt)) by {
                    assert forall|q: int| 0 <= q < lt.len() implies #[trigger] lt[q] != '$' by {
                        assert(lt[q] == s[i]);
                    }
                }
                let rest = tokens_from(s, i + 1);
                assert forall|k: int| 0 <= k < ts.len() implies match #[trigger] ts[k] {
                    Token::Lit(lt) => no_dollar(lt),
                    Token::Ph(m) => valid_name(m),
                } by {
                    if k > 0 {
                        assert(ts[k] == ts.drop_first()[k - 1]);
                        assert(ts[k] == rest[k - 1]);
                    }
                }
                assert(names_from(s, i) == names_from(s, i + 1));
            },
        }
    }
}

/// Expanding text whose `$` all open placeholders, with values free of
/// `$`, leaves no `$`.
proof fn lemma_expand_no_dollar(s: Seq<char>, env: Seq<EnvVar>, i: int)
    requires
        0 <= i <= s.len(),
        dollars_open_placeholders(s),
        forall|k: int|
            0 <= k < names_from(s, i).len() ==> set_without_dollar(
                env,
                #[trigger] names_from(s, i)[k],
            ),
    ensures
        no_dollar(expand_from(s, env, i)),
    decreases s.len() - i,
{
    if i < s.len() {
        let e = name_end(s, i + 2);
        if i + 1 < s.len() && s[i] == '$' && s[i + 1] == '{' && i + 2 < e && e < s.len() && s[e]
            == '}' {
            let nm = s.subrange(i + 2, e);
            assert(names_from(s, i) == seq![nm] + names_from(s, e + 1));
            assert(names_from(s, i)[0] == nm);
            assert forall|k: int| 0 <= k < names_from(s, e + 1).len() implies set_without_dollar(
                env,
                #[trigger] names_from(s, e + 1)[k],
            ) by {
                assert(names_from(s, e + 1)[k] == names_from(s, i)[k + 1]);
            }
            lemma_expand_no_dollar(s, env, e + 1);
            let a = lookup(env, nm)->0;
            let b = expand_from(s, env, e + 1);
            assert(expand_from(s, env, i) == a + b);
            assert forall|k: int| 0 <= k < (a + b).len() implies #[trigger] (a + b)[k] != '$' by {
                if k < a.len() {
                    assert((a + b)[k] == a[k]);
                } else {
                    assert((a + b)[k] == b[k - a.len()]);
                }
            }
        } else {
            assert(names_from(s, i) == names_from(s, i + 1));
            lemma_expand_no_dollar(s, env, i + 1);
            assert(s[i] != '$') by {
                if s[i] == '$' {
                    assert(placeholder_close(s, i) is Some);
                }
            }
            let b = expand_from(s, env, i + 1);
            assert(expand_from(s, env, i) == seq![s[i]] + b);
            assert forall|k: int| 0 <= k < (seq![s[i]] + b).len() implies #[trigger] (seq![s[i]]
                + b)[k] != '$' by {
                if k > 0 {
                    assert((seq![s[i]] + b)[k] == b[k - 1]);
                }
            }
        }
    }
}

/// On text in which every `$` opens a placeholder and every placeholder
/// names a variable set to a value without `$`, strict substitution
/// succeeds with exactly what lenient expansion gives, and the result holds
/// no `$`.
pub proof fn lemma_strict_matches_lenient(s: Seq<char>, env: Seq<EnvVar>)
    requires
        dollars_open_placeholders(s),
        forall|k: int|
            0 <= k < names_from(s, 0).len() ==> set_without_dollar(
                env,
                #[trigger] names_from(s, 0)[k],
            ),
    ensures
        substitute_each(s, names_from(s, 0), env) == Ok::<Seq<char>, Seq<char>>(
            expand_from(s, env, 0),
        ),
        no_dollar(expand_from(s, env, 0)),
{
    let names = names_from(s, 0);
    let ts = tokens_from(s, 0);
    let empty = Set::<Seq<char>>::empty();
    lemma_tokens_valid(s, 0);
    lemma_render_nothing_done(s, env, 0);
    assert(s.subrange(0, s.len() as int) =~= s);
    assert forall|k: int| 0 <= k < names.len() implies valid_name(#[trigger] names[k])
        && set_without_dollar(env, names[k]) by {}
    lemma_substitute_render(ts, empty, names, env);
    let done = empty.union(names.to_set());
    assert forall|k: int| 0 <= k < names.len() implies done.contains(#[trigger] names[k])
        && lookup(env, names[k]) is Some by {
        assert(names.contains(names[k]));
    }
    lemma_render_all_done(s, env, done, 0);
    lemma_expand_no_dollar(s, env, 0);
}


// ------------------------------------------------------------------------
// How text is read, position by position
// ------------------------------------------------------------------------

/// The value of a name is that of the first entry of the snapshot with
/// that name.
pub proof fn lemma_lookup_first_entry(env: Seq<EnvVar>, name: Seq<char>, j: int)
    requires
        0 <= j < env.len(),
        env[j].name@ == name,
        forall|k: int| 0 <= k < j ==> (#[trigger] env[k]).name@ != name,
    ensures
        lookup(env, name) == Some(env[j].value@),
    decreases j,
{
    if j > 0 {
        let rest = env.drop_first();
        assert forall|k: int| 0 <= k < j - 1 implies (#[trigger] rest[k]).name@ != name by {
            assert(rest[k] == env[k + 1]);
        }
        assert(env[0].name@ != name);
        lemma_lookup_first_entry(rest, name, j - 1);
    }
}

/// A name that no entry of the snapshot has is not set.
pub proof fn lemma_lookup_absent(env: Seq<EnvVar>, name: Seq<char>)
    requires
        forall|k: int| 0 <= k < env.len() ==> (#[trigger] env[k]).name@ != name,
    ensures
        lookup(env, name) is None,
    decreases env.len(),
{
    if env.len() > 0 {
        let rest = env.drop_first();
        assert forall|k: int| 0 <= k < rest.len() implies (#[trigger] rest[k]).name@ != name by {
            assert(rest[k] == env[k + 1]);
        }
        assert(env[0].name@ != name);
        lemma_lookup_absent(rest, name);
    }
}

proof fn lemma_name_end_is(s: Seq<char>, j: int, e: int)
    requires
        0 <= j <= e <= s.len(),
        forall|k: int| j <= k < e ==> is_name_char(#[trigger] s[k]),
        e == s.len() || !is_name_char(s[e]),
    ensures
        name_end(s, j) == e,
    decreases e - j,
{
    if j < e {
        lemma_name_end_is(s, j + 1, e);
    }
}

/// A character other than `$` is ordinary text: expansion copies it and it
/// names no variable.
pub proof fn lemma_expand_copies_plain_char(s: Seq<char>, env: Seq<EnvVar>, i: int)
    requires
        0 <= i < s.len(),
        s[i] != '$',
    ensures
        expand_from(s, env, i) == seq![s[i]] + expand_from(s, env, i + 1),
        names_from(s, i) == names_from(s, i + 1),
{
}

/// `${NAME}` at `s[i..=e]`, where NAME is one or more of `A-Z`, `a-z`,
/// `0-9` and `_`, expands to the value of NAME when it is set and stays as
/// written when it is not; it names the variable NAME.
pub proof fn lemma_expand_placeholder(s: Seq<char>, env: Seq<EnvVar>, i: int, e: int)
    requires
        0 <= i,
        i + 2 < e < s.len(),
        s[i] == '$',
        s[i + 1] == '{',
        s[e] == '}',
        forall|k: int|
            i + 2 <= k < e ==> {
                let c = #[trigger] s[k];
                ('A' <= c && c <= 'Z') || ('a' <= c && c <= 'z') || ('0' <= c && c <= '9') || c
                    == '_'
            },
    ensures
        expand_from(s, env, i) == match lookup(env, s.subrange(i + 2, e)) {
            Some(v) => v,
            None => s.subrange(i, e + 1),
        } + expand_from(s, env, e + 1),
        names_from(s, i) == seq![s.subrange(i + 2, e)] + names_from(s, e + 1),
{
    lemma_name_end_is(s, i + 2, e);
}

/// A `$` that does not open a placeholder (it ends the text, is not
/// followed by `{`, or the `{` is not followed by one or more name
/// characters and then `}`) is ordinary text: expansion copies it and it
/// names no variable.  `e` is where the run of name characters after `${`
/// ends.
pub proof fn lemma_expand_copies_lone_dollar(s: Seq<char>, env: Seq<EnvVar>, i: int, e: int)
    requires
        0 <= i < s.len(),
        s[i] == '$',
        i + 1 == s.len() || s[i + 1] != '{' || {
            &&& i + 2 <= e <= s.len()
            &&& forall|k: int|
                i + 2 <= k < e ==> {
                    let c = #[trigger] s[k];
                    ('A' <= c && c <= 'Z') || ('a' <= c && c <= 'z') || ('0' <= c && c <= '9')
                        || c == '_'
                }
            &&& e == s.len() || {
                let c = s[e];
                !(('A' <= c && c <= 'Z') || ('a' <= c && c <= 'z') || ('0' <= c && c <= '9')
                    || c == '_')
            }
            &&& e == i + 2 || e == s.len() || s[e] != '}'
        },
    ensures
        expand_from(s, env, i) == seq![s[i]] + expand_from(s, env, i + 1),
        names_from(s, i) == names_from(s, i + 1),
{
    if i + 1 < s.len() && s[i + 1] == '{' {
        lemma_name_end_is(s, i + 2, e);
    }
}

/// Strict substitution fails with the first name of the list that is not
/// set: every name before it is set.
pub proof fn lemma_substitute_each_first_unset(
    text: Seq<char>,
    names: Seq<Seq<char>>,
    env: Seq<EnvVar>,
)
    ensures
        substitute_each(text, names, env) matches Err(n) ==> exists|j: int|
            0 <= j < names.len() && names[j] == n && lookup(env, n) is None && forall|k: int|
                0 <= k < j ==> lookup(env, #[trigger] names[k]) is Some,
    decreases names.len(),
{
    if names.len() > 0 {
        match lookup(env, names[0]) {
            None => {
                assert(names[0] == names[0]);
            },
            Some(v) => {
                let next = replace_from(text, placeholder_text(names[0]), v, 0);
                let rest = names.drop_first();
                lemma_substitute_each_first_unset(next, rest, env);
                if substitute_each(text, names, env) is Err {
                    let n = substitute_each(text, names, env)->Err_0;
                    let j = choose|j: int|
                        0 <= j < rest.len() && rest[j] == n && lookup(env, n) is None && forall|
                            k: int,
                        | 0 <= k < j ==> lookup(env, #[trigger] rest[k]) is Some;
                    assert(names[j + 1] == n);
                    assert forall|k: int| 0 <= k < j + 1 implies lookup(
                        env,
                        #[trigger] names[k],
                    ) is Some by {
                        if k > 0 {
                            assert(names[k] == rest[k - 1]);
                        }
                    }
                }
            },
        }
    }
}

} // verus!
