//! Per-locale string catalogs with per-key fallback.

use vstd::prelude::*;

use crate::text::{chars_of, find_char_from};

verus! {

/// A catalog value: the parts of a JSON value that lookups read. Strings and objects are
/// kept; numbers, booleans, null and arrays are never a lookup's answer nor a step on its
/// way, and all stand as `Other`.
pub enum Json {
    /// A JSON string.
    Text(String),
    /// A JSON object: its members in order. Where a name repeats, the last member counts.
    Object(Vec<(String, Json)>),
    /// Any other JSON value.
    Other,
}

/// The value of the last member of `entries` named `name`.
pub open spec fn member(entries: Seq<(String, Json)>, name: Seq<char>) -> Option<Json>
    decreases entries.len(),
{
    if entries.len() == 0 {
        None
    } else if entries.last().0@ == name {
        Some(entries.last().1)
    } else {
        member(entries.drop_last(), name)
    }
}

/// The member of an object named `name`; nothing for other values.
pub open spec fn child(node: Json, name: Seq<char>) -> Option<Json> {
    match node {
        Json::Object(entries) => member(entries@, name),
        _ => None,
    }
}

/// The string that a value holds, if it is a string.
pub open spec fn text_of(node: Option<Json>) -> Option<Seq<char>> {
    match node {
        Some(Json::Text(s)) => Some(s@),
        _ => None,
    }
}

/// The string reached from `node` by the dot-separated names of `path[start..]`.
pub open spec fn resolve_from(node: Json, path: Seq<char>, start: int) -> Option<Seq<char>>
    decreases path.len() - start,
{
    if start < 0 || start > path.len() {
        None
    } else {
        match crate::text::find_char(path, start, '.') {
            None => text_of(child(node, path.subrange(start, path.len() as int))),
            Some(dot) => {
                proof {
                    crate::text::lemma_find_char(path, start, '.');
                }
                match child(node, path.subrange(start, dot)) {
                    Some(next) => resolve_from(next, path, dot + 1),
                    None => None,
                }
            },
        }
    }
}

/// The string at the dotted key `path` (such as `invite.subject`) under `node`: each
/// dot-separated name steps into an object member, and the last one must be a string.
pub open spec fn resolve(node: Json, path: Seq<char>) -> Option<Seq<char>> {
    resolve_from(node, path, 0)
}

/// The string at `key` in the catalog of `locale`.
pub open spec fn lookup_in(locales: Seq<(String, Json)>, locale: Seq<char>, key: Seq<char>) -> Option<
    Seq<char>,
> {
    match member(locales, locale) {
        Some(root) => resolve(root, key),
        None => None,
    }
}

/// The characters of an optional string.
pub open spec fn opt_view(s: Option<String>) -> Option<Seq<char>> {
    match s {
        Some(t) => Some(t@),
        None => None,
    }
}

/// The position of the last entry of `entries` named `src[from..to]`.
fn member_index(entries: &Vec<(String, Json)>, src: &Vec<char>, from: usize, to: usize) -> (r:
    Option<usize>)
    requires
        from <= to <= src.len(),
    ensures
        r is None ==> member(entries@, src@.subrange(from as int, to as int)) is None,
        r matches Some(i) ==> i < entries.len() && member(entries@, src@.subrange(from as int, to as int))
            == Some(entries@[i as int].1),
{
    let ghost name = src@.subrange(from as int, to as int);
    let mut n = entries.len();
    proof {
        assert(entries@.take(n as int) == entries@);
    }
    while n > 0
        invariant
            n <= entries.len(),
            name == src@.subrange(from as int, to as int),
            from <= to <= src.len(),
            member(entries@, name) == member(entries@.take(n as int), name),
        decreases n,
    {
        proof {
            assert(entries@.take(n as int).drop_last() == entries@.take(n - 1));
        }
        let k = chars_of(entries[n - 1].0.as_str());
        if crate::text::chars_equal_range(&k, src, from, to) {
            return Some(n - 1);
        }
        n -= 1;
    }
    None
}

/// A set of per-locale string catalogs with a fallback locale.
///
/// Each catalog is an arbitrary JSON object; strings are addressed by dotted key
/// (`"invite.subject"`) which walks nested objects. Lookup falls back to the configured
/// fallback locale per key, so a locale that is missing a single string still renders.
pub struct Catalog {
    locales: Vec<(String, Json)>,
    fallback: String,
}

impl Catalog {
    /// The `(locale, catalog)` pairs; where a locale repeats, the last pair counts.
    pub closed spec fn locale_table(&self) -> Seq<(String, Json)> {
        self.locales@
    }

    /// The fallback locale.
    pub closed spec fn fallback_locale(&self) -> Seq<char> {
        self.fallback@
    }

    /// Build a catalog from `(locale_code, parsed_json)` pairs and a fallback locale.
    pub fn new(locales: Vec<(String, Json)>, fallback: &str) -> (c: Catalog)
        ensures
            c.locale_table() == locales@,
            c.fallback_locale() == fallback@,
    {
        Catalog { locales, fallback: fallback.to_owned() }
    }

    /// Resolve a dotted key for `locale`, falling back to the fallback locale's value
    /// for that key when the requested locale lacks it (or is unknown).
    pub fn get(&self, locale: &str, dotted_key: &str) -> (r: Option<String>)
        ensures
            opt_view(r) == (match lookup_in(self.locale_table(), locale@, dotted_key@) {
                Some(s) => Some(s),
                None => lookup_in(self.locale_table(), self.fallback_locale(), dotted_key@),
            }),
    {
        match self.lookup(locale, dotted_key) {
            Some(s) => Some(s),
            None => self.lookup(self.fallback.as_str(), dotted_key),
        }
    }

    fn lookup(&self, locale: &str, dotted_key: &str) -> (r: Option<String>)
        ensures
            opt_view(r) == lookup_in(self.locale_table(), locale@, dotted_key@),
    {
        let loc = chars_of(locale);
        let n = loc.len();
        proof {
            assert(loc@.subrange(0, n as int) == loc@);
        }
        let root_index = match member_index(&self.locales, &loc, 0, n) {
            Some(i) => i,
            None => {
                return None;
            },
        };
        let key = chars_of(dotted_key);
        let mut node: &Json = &self.locales[root_index].1;
        let mut start: usize = 0;
        loop
            invariant
                start <= key.len(),
                resolve_from(*node, key@, start as int) == lookup_in(
                    self.locale_table(),
                    locale@,
                    dotted_key@,
                ),
            decreases key.len() - start,
        {
            let dot = find_char_from(&key, start, '.');
            let entries = match node {
                Json::Object(entries) => entries,
                _ => {
                    return None;
                },
            };
            let next = match member_index(entries, &key, start, dot) {
                Some(i) => &entries[i].1,
                None => {
                    return None;
                },
            };
            if dot == key.len() {
                return match next {
                    Json::Text(s) => Some(s.clone()),
                    _ => None,
                };
            }
            proof {
                crate::text::lemma_find_char(key@, start as int, '.');
            }
            node = next;
            start = dot + 1;
        }
    }
}

/// Whether the names `names` lead from `node` through nested objects to the string `s`.
pub open spec fn leads_to(node: Json, names: Seq<Seq<char>>, s: Seq<char>) -> bool
    decreases names.len(),
{
    if names.len() == 0 {
        false
    } else if names.len() == 1 {
        text_of(child(node, names[0])) == Some(s)
    } else {
        match child(node, names[0]) {
            Some(next) => leads_to(next, names.drop_first(), s),
            None => false,
        }
    }
}

/// The names joined with dots, as in `invite.subject`.
pub open spec fn dotted(names: Seq<Seq<char>>) -> Seq<char>
    decreases names.len(),
{
    if names.len() == 0 {
        Seq::empty()
    } else if names.len() == 1 {
        names[0]
    } else {
        names[0] + seq!['.'] + dotted(names.drop_first())
    }
}

proof fn lemma_find_char_shift(a: Seq<char>, b: Seq<char>, j: int, c: char)
    requires
        0 <= j,
    ensures
        crate::text::find_char(a + b, a.len() + j, c) == (match crate::text::find_char(b, j, c) {
            Some(i) => Some(i + a.len()),
            None => None,
        }),
    decreases b.len() - j,
{
    if j < b.len() {
        assert((a + b)[a.len() + j] == b[j]);
        if b[j] != c {
            lemma_find_char_shift(a, b, j + 1, c);
        }
    }
}

proof fn lemma_find_char_absent(s: Seq<char>, from: int, c: char)
    requires
        0 <= from,
        forall|i: int| from <= i < s.len() ==> s[i] != c,
    ensures
        crate::text::find_char(s, from, c) is None,
    decreases s.len() - from,
{
    if from < s.len() {
        lemma_find_char_absent(s, from + 1, c);
    }
}

/// Resolving past a prefix is resolving the rest.
proof fn lemma_resolve_shift(node: Json, a: Seq<char>, b: Seq<char>, j: int)
    requires
        0 <= j <= b.len(),
    ensures
        resolve_from(node, a + b, a.len() + j) == resolve_from(node, b, j),
    decreases b.len() - j,
{
    let t = a + b;
    let n = a.len() as int;
    lemma_find_char_shift(a, b, j, '.');
    assert(t.subrange(n + j, t.len() as int) == b.subrange(j, b.len() as int));
    match crate::text::find_char(b, j, '.') {
        None => {},
        Some(d) => {
            crate::text::lemma_find_char(b, j, '.');
            assert(t.subrange(n + j, n + d) == b.subrange(j, d));
            match child(node, b.subrange(j, d)) {
                Some(next) => {
                    lemma_resolve_shift(next, a, b, d + 1);
                },
                None => {},
            }
        },
    }
}

/// A dotted key walks every one of its segments, at any depth: when dot-free names lead
/// through nested objects to a string, the key made of those names joined with dots
/// resolves to that string.
pub proof fn lemma_dotted_key_walks_every_segment(node: Json, names: Seq<Seq<char>>, s: Seq<char>)
    requires
        forall|i: int| 0 <= i < names.len() ==> crate::substitute::lacks(#[trigger] names[i], '.'),
        leads_to(node, names, s),
    ensures
        resolve(node, dotted(names)) == Some(s),
    decreases names.len(),
{
    let first = names[0];
    assert(crate::substitute::lacks(first, '.'));
    if names.len() == 1 {
        lemma_find_char_absent(first, 0, '.');
        assert(first.subrange(0, first.len() as int) == first);
    } else {
        let rest = names.drop_first();
        assert forall|i: int| 0 <= i < rest.len() implies crate::substitute::lacks(
            #[trigger] rest[i],
            '.',
        ) by {
            assert(rest[i] == names[i + 1]);
        }
        let next = child(node, first).unwrap();
        lemma_dotted_key_walks_every_segment(next, rest, s);
        let head = first + seq!['.'];
        let t = dotted(names);
        assert(t == head + dotted(rest));
        assert forall|i: int| 0 <= i < first.len() implies t[i] != '.' by {
            assert(t[i] == first[i]);
        }
        assert(t[first.len() as int] == '.');
        lemma_find_char_at(t, 0, '.', first.len() as int);
        assert(t.subrange(0, first.len() as int) == first);
        lemma_resolve_shift(next, head, dotted(rest), 0);
    }
}

proof fn lemma_find_char_at(s: Seq<char>, from: int, c: char, m: int)
    requires
        0 <= from <= m < s.len(),
        s[m] == c,
        forall|i: int| from <= i < m ==> s[i] != c,
    ensures
        crate::text::find_char(s, from, c) == Some(m),
    decreases m - from,
{
    if from < m {
        lemma_find_char_at(s, from + 1, c, m);
    }
}

/// In a locale's catalog, a dotted key walks every segment to its string.
pub proof fn lemma_lookup_walks_every_segment(
    locales: Seq<(String, Json)>,
    locale: Seq<char>,
    names: Seq<Seq<char>>,
    s: Seq<char>,
)
    requires
        member(locales, locale) is Some,
        forall|i: int| 0 <= i < names.len() ==> crate::substitute::lacks(#[trigger] names[i], '.'),
        leads_to(member(locales, locale).unwrap(), names, s),
    ensures
        lookup_in(locales, locale, dotted(names)) == Some(s),
{
    lemma_dotted_key_walks_every_segment(member(locales, locale).unwrap(), names, s);
}

} // verus!
