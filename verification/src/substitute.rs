//! Single-pass `{{token}}` substitution.

use vstd::prelude::*;

use crate::text::{chars_of, push_all, push_range, string_from_chars, trim_bounds, trimmed};
use crate::vars::Vars;

verus! {

/// The first position at or after `from` where `c` occurs twice in a row.
pub open spec fn find_pair(s: Seq<char>, from: int, c: char) -> Option<int>
    decreases s.len() - from,
{
    if from < 0 || from + 1 >= s.len() {
        None
    } else if s[from] == c && s[from + 1] == c {
        Some(from)
    } else {
        find_pair(s, from + 1, c)
    }
}

/// Whether `c` occurs twice in a row at position `i` of `s`.
pub open spec fn pair_at(s: Seq<char>, i: int, c: char) -> bool {
    0 <= i && i + 1 < s.len() && s[i] == c && s[i + 1] == c
}

/// What `find_pair` finds: the first pair at or after `from`, or none at all.
pub proof fn lemma_find_pair(s: Seq<char>, from: int, c: char)
    requires
        0 <= from,
    ensures
        find_pair(s, from, c) matches Some(i) ==> from <= i && i + 2 <= s.len() && pair_at(s, i, c)
            && forall|j: int| from <= j < i ==> !pair_at(s, j, c),
        find_pair(s, from, c) is None ==> forall|j: int| from <= j ==> !pair_at(s, j, c),
    decreases s.len() - from,
{
    if from + 1 < s.len() && !pair_at(s, from, c) {
        lemma_find_pair(s, from + 1, c);
        assert forall|j: int| from <= j && !(j > from) implies !pair_at(s, j, c) by {}
    }
}

/// The substitution of `s` from position `pos` on: text up to the next `{{` is kept;
/// a `{{key}}` whose trimmed key has a value is replaced by that value and scanning
/// resumes after the closing `}}`; otherwise the `{{` is kept and scanning resumes
/// right after it.
pub open spec fn subst_from(s: Seq<char>, pos: int, vars: Map<Seq<char>, Seq<char>>) -> Seq<char>
    decreases s.len() - pos,
{
    if pos < 0 || pos > s.len() {
        Seq::empty()
    } else {
        match find_pair(s, pos, '{') {
            None => s.subrange(pos, s.len() as int),
            Some(open) => {
                proof {
                    lemma_find_pair(s, pos, '{');
                    lemma_find_pair(s, open + 2, '}');
                }
                let after = open + 2;
                match find_pair(s, after, '}') {
                    Some(close) => {
                        let key = trimmed(s.subrange(after, close));
                        if vars.contains_key(key) {
                            s.subrange(pos, open) + vars[key] + subst_from(s, close + 2, vars)
                        } else {
                            s.subrange(pos, after) + subst_from(s, after, vars)
                        }
                    },
                    None => s.subrange(pos, after) + subst_from(s, after, vars),
                }
            },
        }
    }
}

/// `template` with its `{{token}}` placeholders replaced in a single left-to-right pass.
pub open spec fn substituted(template: Seq<char>, vars: Map<Seq<char>, Seq<char>>) -> Seq<char> {
    subst_from(template, 0, vars)
}

fn find_pair_from(cs: &Vec<char>, from: usize, c: char) -> (r: Option<usize>)
    requires
        from <= cs.len(),
    ensures
        r matches Some(i) ==> find_pair(cs@, from as int, c) == Some(i as int),
        r is None ==> find_pair(cs@, from as int, c) is None,
{
    let mut i = from;
    while cs.len() - i >= 2
        invariant
            from <= i <= cs.len(),
            find_pair(cs@, i as int, c) == find_pair(cs@, from as int, c),
        decreases cs.len() - i,
    {
        if cs[i] == c && cs[i + 1] == c {
            return Some(i);
        }
        i += 1;
    }
    None
}

/// Replace `{{token}}` placeholders in a single left-to-right pass.
///
/// Inserted values are never rescanned, so a value that itself contains `{{...}}` cannot
/// trigger further substitution. Unknown tokens are left in place.
pub fn substitute(template: &str, vars: &Vars) -> (r: String)
    ensures
        r@ == substituted(template@, vars@),
{
    let cs = chars_of(template);
    let out = substitute_chars(&cs, vars);
    string_from_chars(&out)
}

/// `substitute` over characters.
pub fn substitute_chars(cs: &Vec<char>, vars: &Vars) -> (out: Vec<char>)
    ensures
        out@ == substituted(cs@, vars@),
{
    let mut out: Vec<char> = Vec::new();
    let mut pos: usize = 0;
    loop
        invariant
            pos <= cs.len(),
            out@ + subst_from(cs@, pos as int, vars@) == subst_from(cs@, 0, vars@),
        ensures
            out@ == subst_from(cs@, 0, vars@),
        decreases cs.len() - pos,
    {
        let ghost before = out@;
        match find_pair_from(cs, pos, '{') {
            None => {
                push_range(&mut out, cs, pos, cs.len());
                proof {
                    lemma_find_pair(cs@, cs.len() as int, '{');
                    assert(cs@.subrange(cs.len() as int, cs.len() as int) == Seq::<char>::empty());
                    assert(out@ + subst_from(cs@, cs.len() as int, vars@) == out@);
                }
                return out;
            },
            Some(open) => {
                proof {
                    lemma_find_pair(cs@, pos as int, '{');
                }
                let after = open + 2;
                let mut replaced = false;
                match find_pair_from(cs, after, '}') {
                    Some(close) => {
                        proof {
                            lemma_find_pair(cs@, after as int, '}');
                        }
                        let (ks, ke) = trim_bounds(cs, after, close);
                        match vars.find_range(cs, ks, ke) {
                            Some(idx) => {
                                push_range(&mut out, cs, pos, open);
                                push_all(&mut out, vars.value_chars(idx));
                                proof {
                                    assert(out@ + subst_from(cs@, close + 2, vars@) == before
                                        + subst_from(cs@, pos as int, vars@));
                                }
                                pos = close + 2;
                                replaced = true;
                            },
                            None => {},
                        }
                    },
                    None => {},
                }
                if !replaced {
                    push_range(&mut out, cs, pos, after);
                    proof {
                        assert(out@ + subst_from(cs@, after as int, vars@) == before + subst_from(
                            cs@,
                            pos as int,
                            vars@,
                        ));
                    }
                    pos = after;
                }
            },
        }
    }
}

/// `find_pair` finds `m` when a pair stands at `m` and none stands between `from` and `m`.
proof fn lemma_find_pair_at(s: Seq<char>, from: int, c: char, m: int)
    requires
        0 <= from <= m,
        pair_at(s, m, c),
        forall|j: int| from <= j < m ==> !pair_at(s, j, c),
    ensures
        find_pair(s, from, c) == Some(m),
    decreases m - from,
{
    if from < m {
        assert(!pair_at(s, from, c));
        lemma_find_pair_at(s, from + 1, c, m);
    }
}

/// Searching past a prefix is searching the rest.
proof fn lemma_find_pair_shift(a: Seq<char>, b: Seq<char>, j: int, c: char)
    requires
        0 <= j,
    ensures
        find_pair(a + b, a.len() + j, c) == (match find_pair(b, j, c) {
            Some(i) => Some(i + a.len()),
            None => None,
        }),
    decreases b.len() - j,
{
    let t = a + b;
    if j + 1 < b.len() {
        assert(t[a.len() + j] == b[j]);
        assert(t[a.len() + j + 1] == b[j + 1]);
        if !(b[j] == c && b[j + 1] == c) {
            lemma_find_pair_shift(a, b, j + 1, c);
        }
    }
}

/// Substituting past a prefix is substituting the rest.
proof fn lemma_subst_shift(a: Seq<char>, b: Seq<char>, j: int, vars: Map<Seq<char>, Seq<char>>)
    requires
        0 <= j <= b.len(),
    ensures
        subst_from(a + b, a.len() + j, vars) == subst_from(b, j, vars),
    decreases b.len() - j,
{
    let t = a + b;
    let n = a.len() as int;
    lemma_find_pair_shift(a, b, j, '{');
    assert(t.subrange(n + j, t.len() as int) == b.subrange(j, b.len() as int));
    match find_pair(b, j, '{') {
        None => {},
        Some(open) => {
            lemma_find_pair(b, j, '{');
            let after = open + 2;
            lemma_find_pair_shift(a, b, after, '}');
            assert(t.subrange(n + j, n + after) == b.subrange(j, after));
            assert(t.subrange(n + j, n + open) == b.subrange(j, open));
            match find_pair(b, after, '}') {
                Some(close) => {
                    lemma_find_pair(b, after, '}');
                    assert(t.subrange(n + after, n + close) == b.subrange(after, close));
                    lemma_subst_shift(a, b, close + 2, vars);
                    lemma_subst_shift(a, b, after, vars);
                },
                None => {
                    lemma_subst_shift(a, b, after, vars);
                },
            }
        },
    }
}

/// Without values, substitution from `pos` on keeps the text from `pos` on.
proof fn lemma_subst_from_without_values(t: Seq<char>, pos: int)
    requires
        0 <= pos <= t.len(),
    ensures
        subst_from(t, pos, Map::empty()) == t.subrange(pos, t.len() as int),
    decreases t.len() - pos,
{
    lemma_find_pair(t, pos, '{');
    match find_pair(t, pos, '{') {
        None => {},
        Some(open) => {
            lemma_find_pair(t, open + 2, '}');
            lemma_subst_from_without_values(t, open + 2);
            assert(t.subrange(pos, open + 2) + t.subrange(open + 2, t.len() as int) == t.subrange(
                pos,
                t.len() as int,
            ));
        },
    }
}

/// With no values at all, every placeholder is unknown and the template is unchanged.
pub proof fn lemma_substitute_without_values(t: Seq<char>)
    ensures
        substituted(t, Map::empty()) == t,
{
    lemma_subst_from_without_values(t, 0);
    assert(t.subrange(0, t.len() as int) == t);
}

/// A template with no `{{` in it comes out unchanged, whatever the values.
pub proof fn lemma_substitute_plain(t: Seq<char>, vars: Map<Seq<char>, Seq<char>>)
    requires
        forall|i: int| !pair_at(t, i, '{'),
    ensures
        substituted(t, vars) == t,
{
    lemma_find_pair(t, 0, '{');
    assert(t.subrange(0, t.len() as int) == t);
}

/// Whether `c` does not occur in `s`.
pub open spec fn lacks(s: Seq<char>, c: char) -> bool {
    forall|i: int| 0 <= i < s.len() ==> s[i] != c
}

/// The placeholder `{{k}}`.
pub open spec fn placeholder(k: Seq<char>) -> Seq<char> {
    seq!['{', '{'] + k + seq!['}', '}']
}

/// Where the first placeholder of `p + {{k}} + s` opens and closes.
proof fn lemma_first_placeholder(p: Seq<char>, k: Seq<char>, s: Seq<char>)
    requires
        lacks(p, '{'),
        lacks(k, '}'),
    ensures
        find_pair(p + placeholder(k) + s, 0, '{') == Some(p.len() as int),
        find_pair(p + placeholder(k) + s, p.len() + 2int, '}') == Some(p.len() + 2int + k.len()),
        (p + placeholder(k) + s).subrange(0, p.len() as int) == p,
        (p + placeholder(k) + s).subrange(p.len() + 2int, p.len() + 2int + k.len()) == k,
{
    let t = p + placeholder(k) + s;
    let n = p.len() as int;
    assert(t[n] == '{' && t[n + 1] == '{');
    assert forall|j: int| 0 <= j < n implies !pair_at(t, j, '{') by {
        assert(t[j] == p[j]);
    }
    lemma_find_pair_at(t, 0, '{', n);
    let m = n + 2 + k.len();
    assert(t[m] == '}' && t[m + 1] == '}');
    assert forall|j: int| n + 2 <= j < m implies !pair_at(t, j, '}') by {
        assert(t[j] == k[j - n - 2]);
    }
    lemma_find_pair_at(t, n + 2, '}', m);
    assert(t.subrange(0, n) == p);
    assert(t.subrange(n + 2, m) == k);
}

/// A known placeholder is replaced by its value, the value is not rescanned, and
/// substitution goes on after the placeholder.
pub proof fn lemma_substitute_known_token(
    p: Seq<char>,
    k: Seq<char>,
    s: Seq<char>,
    vars: Map<Seq<char>, Seq<char>>,
)
    requires
        lacks(p, '{'),
        lacks(k, '}'),
        vars.contains_key(trimmed(k)),
    ensures
        substituted(p + placeholder(k) + s, vars) == p + vars[trimmed(k)] + substituted(s, vars),
{
    let t = p + placeholder(k) + s;
    lemma_first_placeholder(p, k, s);
    let pre = p + placeholder(k);
    assert(t == pre + s);
    lemma_subst_shift(pre, s, 0, vars);
}

/// An unknown placeholder keeps its `{{`, and substitution goes on right after it.
pub proof fn lemma_substitute_unknown_token(
    p: Seq<char>,
    k: Seq<char>,
    s: Seq<char>,
    vars: Map<Seq<char>, Seq<char>>,
)
    requires
        lacks(p, '{'),
        lacks(k, '}'),
        !vars.contains_key(trimmed(k)),
    ensures
        substituted(p + placeholder(k) + s, vars) == p + seq!['{', '{'] + substituted(
            k + seq!['}', '}'] + s,
            vars,
        ),
{
    let t = p + placeholder(k) + s;
    lemma_first_placeholder(p, k, s);
    let pre = p + seq!['{', '{'];
    let rest = k + seq!['}', '}'] + s;
    assert(t == pre + rest);
    lemma_subst_shift(pre, rest, 0, vars);
    assert(t.subrange(0, p.len() + 2int) == pre);
}

/// Scanning from `pos` skips straight to `m` when no `{{` starts in between.
proof fn lemma_subst_skip_plain(t: Seq<char>, pos: int, m: int, vars: Map<Seq<char>, Seq<char>>)
    requires
        0 <= pos <= m <= t.len(),
        forall|j: int| pos <= j < m ==> !pair_at(t, j, '{'),
    ensures
        subst_from(t, pos, vars) == t.subrange(pos, m) + subst_from(t, m, vars),
    decreases m - pos,
{
    if pos < m {
        assert(!pair_at(t, pos, '{'));
        lemma_subst_skip_plain(t, pos + 1, m, vars);
        lemma_find_pair(t, pos, '{');
        lemma_find_pair(t, pos + 1, '{');
        assert(find_pair(t, pos, '{') == find_pair(t, pos + 1, '{'));
        let one = t.subrange(pos, pos + 1);
        match find_pair(t, pos, '{') {
            None => {
                assert(t.subrange(pos, t.len() as int) == one + t.subrange(pos + 1, t.len() as int));
            },
            Some(open) => {
                let after = open + 2;
                lemma_find_pair(t, after, '}');
                assert(t.subrange(pos, open) == one + t.subrange(pos + 1, open));
                assert(t.subrange(pos, after) == one + t.subrange(pos + 1, after));
                match find_pair(t, after, '}') {
                    Some(close) => {
                        let key = trimmed(t.subrange(after, close));
                        if vars.contains_key(key) {
                            assert(subst_from(t, pos, vars) == t.subrange(pos, open) + vars[key]
                                + subst_from(t, close + 2, vars));
                            assert(subst_from(t, pos + 1, vars) == t.subrange(pos + 1, open)
                                + vars[key] + subst_from(t, close + 2, vars));
                        } else {
                            assert(subst_from(t, pos, vars) == t.subrange(pos, after) + subst_from(
                                t,
                                after,
                                vars,
                            ));
                            assert(subst_from(t, pos + 1, vars) == t.subrange(pos + 1, after)
                                + subst_from(t, after, vars));
                        }
                    },
                    None => {
                        assert(subst_from(t, pos, vars) == t.subrange(pos, after) + subst_from(
                            t,
                            after,
                            vars,
                        ));
                        assert(subst_from(t, pos + 1, vars) == t.subrange(pos + 1, after)
                            + subst_from(t, after, vars));
                    },
                }
            },
        }
        assert(subst_from(t, pos, vars) == one + subst_from(t, pos + 1, vars));
        assert(t.subrange(pos, m) == one + t.subrange(pos + 1, m));
        assert(one + (t.subrange(pos + 1, m) + subst_from(t, m, vars)) == (one + t.subrange(
            pos + 1,
            m,
        )) + subst_from(t, m, vars));
    }
}

/// Text without `{` passes through unchanged, and substitution goes on after it.
pub proof fn lemma_substitute_plain_prefix(p: Seq<char>, s: Seq<char>, vars: Map<Seq<char>, Seq<char>>)
    requires
        lacks(p, '{'),
    ensures
        substituted(p + s, vars) == p + substituted(s, vars),
{
    let t = p + s;
    assert forall|j: int| 0 <= j < p.len() implies !pair_at(t, j, '{') by {
        assert(t[j] == p[j]);
    }
    lemma_subst_skip_plain(t, 0, p.len() as int, vars);
    assert(t.subrange(0, p.len() as int) == p);
    lemma_subst_shift(p, s, 0, vars);
}

/// One placeholder in a template: a known name is replaced by its value, an unknown one
/// is kept as it stands, the inserted value is never rescanned, and substitution goes on
/// right after the placeholder.
pub proof fn lemma_substitute_token(
    a: Seq<char>,
    k: Seq<char>,
    b: Seq<char>,
    vars: Map<Seq<char>, Seq<char>>,
)
    requires
        lacks(a, '{'),
        lacks(k, '{'),
        lacks(k, '}'),
    ensures
        substituted(a + placeholder(k) + b, vars) == a + (if vars.contains_key(trimmed(k)) {
            vars[trimmed(k)]
        } else {
            placeholder(k)
        }) + substituted(b, vars),
{
    if vars.contains_key(trimmed(k)) {
        lemma_substitute_known_token(a, k, b, vars);
    } else {
        lemma_substitute_unknown_token(a, k, b, vars);
        let closing = k + seq!['}', '}'];
        assert(lacks(closing, '{')) by {
            assert forall|i: int| 0 <= i < closing.len() implies closing[i] != '{' by {
                if i < k.len() {
                    assert(closing[i] == k[i]);
                }
            }
        }
        assert(k + seq!['}', '}'] + b == closing + b);
        lemma_substitute_plain_prefix(closing, b, vars);
        assert(a + seq!['{', '{'] + (closing + substituted(b, vars)) == a + placeholder(k)
            + substituted(b, vars));
    }
}

} // verus!
