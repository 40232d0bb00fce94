//! Runtime values interpolated into templates, keyed by `{{token}}` name.

use vstd::prelude::*;

use crate::escape::{escape_into, html_escaped};
use crate::text::{chars_of, string_from_chars};

verus! {

/// Runtime values interpolated into templates, keyed by `{{token}}` name.
///
/// A finite map from token names to values; each name occurs at most once.
pub struct Vars {
    entries: Vec<(Vec<char>, Vec<char>)>,
}

/// The map that a list of distinct-keyed entries stands for.
spec fn entries_map(s: Seq<(Vec<char>, Vec<char>)>) -> Map<Seq<char>, Seq<char>>
    decreases s.len(),
{
    if s.len() == 0 {
        Map::empty()
    } else {
        entries_map(s.drop_last()).insert(s.last().0@, s.last().1@)
    }
}

spec fn keys_distinct(s: Seq<(Vec<char>, Vec<char>)>) -> bool {
    forall|i: int, j: int| 0 <= i < j < s.len() ==> s[i].0@ != s[j].0@
}

/// For entries with distinct keys, the map holds exactly their keys, each with its value.
proof fn lemma_entries_map(s: Seq<(Vec<char>, Vec<char>)>)
    requires
        keys_distinct(s),
    ensures
        forall|k: Seq<char>|
            entries_map(s).contains_key(k) <==> exists|i: int| 0 <= i < s.len() && #[trigger] s[i].0@ == k,
        forall|i: int| 0 <= i < s.len() ==> entries_map(s)[#[trigger] s[i].0@] == s[i].1@,
        entries_map(s).dom().finite(),
    decreases s.len(),
{
    if s.len() > 0 {
        let t = s.drop_last();
        assert(keys_distinct(t));
        lemma_entries_map(t);
        assert forall|k: Seq<char>|
            entries_map(s).contains_key(k) implies exists|i: int| 0 <= i < s.len() && #[trigger] s[i].0@ == k by {
            if k != s.last().0@ {
                let i = choose|i: int| 0 <= i < t.len() && #[trigger] t[i].0@ == k;
                assert(s[i] == t[i]);
            } else {
                assert(s[s.len() - 1].0@ == k);
            }
        }
        assert forall|k: Seq<char>|
            (exists|i: int| 0 <= i < s.len() && #[trigger] s[i].0@ == k) implies entries_map(s).contains_key(k) by {
            let i = choose|i: int| 0 <= i < s.len() && #[trigger] s[i].0@ == k;
            if i < s.len() - 1 {
                assert(t[i] == s[i]);
            }
        }
        assert forall|i: int| 0 <= i < s.len() implies entries_map(s)[#[trigger] s[i].0@] == s[i].1@ by {
            if i < s.len() - 1 {
                assert(t[i] == s[i]);
                assert(s[i].0@ != s[s.len() - 1].0@);
            }
        }
    }
}

impl View for Vars {
    type V = Map<Seq<char>, Seq<char>>;

    closed spec fn view(&self) -> Map<Seq<char>, Seq<char>> {
        entries_map(self.entries@)
    }
}

impl Vars {
    #[verifier::type_invariant]
    spec fn well_formed(self) -> bool {
        keys_distinct(self.entries@)
    }

    /// An empty set of values.
    pub fn new() -> (v: Vars)
        ensures
            v@ == Map::<Seq<char>, Seq<char>>::empty(),
    {
        Vars { entries: Vec::new() }
    }

    /// The position of the entry whose name is `src[from..to]`, if there is one.
    pub(crate) fn find_range(&self, src: &Vec<char>, from: usize, to: usize) -> (r: Option<usize>)
        requires
            from <= to <= src.len(),
        ensures
            r is None ==> !self@.contains_key(src@.subrange(from as int, to as int)),
            r matches Some(i) ==> self@.contains_key(src@.subrange(from as int, to as int)) && i
                < self.entry_count() && self.key_at(i as int) == src@.subrange(from as int, to as int)
                && self@[src@.subrange(from as int, to as int)] == self.value_at(i as int),
    {
        proof {
            use_type_invariant(self);
            lemma_entries_map(self.entries@);
        }
        let mut i: usize = 0;
        while i < self.entries.len()
            invariant
                from <= to <= src.len(),
                0 <= i <= self.entries.len(),
                forall|j: int| 0 <= j < i ==> self.entries@[j].0@ != src@.subrange(from as int, to as int),
            decreases self.entries.len() - i,
        {
            if crate::text::chars_equal_range(&self.entries[i].0, src, from, to) {
                proof {
                    use_type_invariant(self);
                    lemma_entries_map(self.entries@);
                }
                return Some(i);
            }
            i += 1;
        }
        None
    }

    /// The number of stored entries.
    pub(crate) closed spec fn entry_count(&self) -> nat {
        self.entries@.len()
    }

    /// The name stored in entry `i`.
    pub(crate) closed spec fn key_at(&self, i: int) -> Seq<char> {
        self.entries@[i].0@
    }

    /// The value stored in entry `i`.
    pub(crate) closed spec fn value_at(&self, i: int) -> Seq<char> {
        self.entries@[i].1@
    }

    /// The characters of the value stored in entry `i`.
    pub(crate) fn value_chars(&self, i: usize) -> (v: &Vec<char>)
        requires
            i < self.entry_count(),
        ensures
            v@ == self.value_at(i as int),
    {
        &self.entries[i].1
    }

    /// Sets the value of `key` (given as characters), replacing any earlier value.
    pub(crate) fn insert_chars(&mut self, key: Vec<char>, value: Vec<char>)
        ensures
            final(self)@ == old(self)@.insert(key@, value@),
    {
        proof {
            use_type_invariant(&*self);
            lemma_entries_map(self.entries@);
        }
        let n = key.len();
        let found = self.find_range(&key, 0, n);
        proof {
            assert(key@.subrange(0, n as int) == key@);
        }
        match found {
            Some(i) => {
                let ghost before = self.entries@;
                let ghost m = entries_map(before);
                let mut entries = Vec::new();
                std::mem::swap(&mut entries, &mut self.entries);
                entries.set(i, (key, value));
                let ghost after = entries@;
                proof {
                    assert(keys_distinct(after)) by {
                        assert forall|a: int| 0 <= a < after.len() implies #[trigger] after[a].0@
                            == before[a].0@ by {
                            if a != i {
                                assert(after[a] == before[a]);
                            }
                        }
                    }
                    lemma_entries_map(after);
                    assert forall|k: Seq<char>| #[trigger]
                        entries_map(after).contains_key(k) == m.insert(key@, value@).contains_key(
                            k,
                        ) by {
                        if entries_map(after).contains_key(k) {
                            let j = choose|j: int| 0 <= j < after.len() && #[trigger] after[j].0@ == k;
                            if j != i {
                                assert(after[j] == before[j]);
                            }
                        }
                        if k == key@ {
                            assert(after[i as int].0@ == k);
                        }
                        if m.contains_key(k) && k != key@ {
                            let j = choose|j: int| 0 <= j < before.len() && #[trigger] before[j].0@ == k;
                            assert(after[j] == before[j]);
                        }
                    }
                    assert forall|k: Seq<char>| #[trigger]
                        entries_map(after).contains_key(k) implies entries_map(after)[k] == m.insert(
                            key@,
                            value@,
                        )[k] by {
                        let j = choose|j: int| 0 <= j < after.len() && #[trigger] after[j].0@ == k;
                        if j != i {
                            assert(after[j] == before[j]);
                        }
                    }
                    assert(entries_map(after) =~= m.insert(key@, value@));
                }
                self.entries = entries;
            },
            None => {
                proof {
                    let s = self.entries@.push((key, value));
                    assert(s.drop_last() == self.entries@);
                    assert forall|a: int, b: int| 0 <= a < b < s.len() implies s[a].0@
                        != s[b].0@ by {
                        if b == s.len() - 1 {
                            assert(s[a] == self.entries@[a]);
                        } else {
                            assert(s[a] == self.entries@[a] && s[b] == self.entries@[b]);
                        }
                    }
                }
                let mut entries = Vec::new();
                std::mem::swap(&mut entries, &mut self.entries);
                entries.push((key, value));
                self.entries = entries;
            },
        }
    }

    /// Sets the value of `key`, replacing any earlier value.
    pub fn insert(&mut self, key: &str, value: String)
        ensures
            final(self)@ == old(self)@.insert(key@, value@),
    {
        let k = chars_of(key);
        let v = chars_of(value.as_str());
        self.insert_chars(k, v);
    }

    /// The value of `key`, if it has one.
    pub fn get(&self, key: &str) -> (r: Option<String>)
        ensures
            r is Some <==> self@.contains_key(key@),
            r matches Some(v) ==> v@ == self@[key@],
    {
        let k = chars_of(key);
        let n = k.len();
        let found = self.find_range(&k, 0, n);
        proof {
            assert(k@.subrange(0, n as int) == k@);
        }
        match found {
            Some(i) => Some(string_from_chars(self.value_chars(i))),
            None => None,
        }
    }

    /// The same names, each with its value HTML-escaped.
    pub fn escaped(&self) -> (r: Vars)
        ensures
            r@ == self@.map_values(|v: Seq<char>| html_escaped(v)),
    {
        proof {
            use_type_invariant(self);
            lemma_entries_map(self.entries@);
        }
        let mut out: Vec<(Vec<char>, Vec<char>)> = Vec::new();
        for i in 0..self.entries.len()
            invariant
                keys_distinct(self.entries@),
                out@.len() == i,
                forall|j: int| 0 <= j < i ==> (#[trigger] out@[j]).0@ == self.entries@[j].0@
                    && out@[j].1@ == html_escaped(self.entries@[j].1@),
        {
            let mut key: Vec<char> = Vec::new();
            crate::text::push_all(&mut key, &self.entries[i].0);
            let mut value: Vec<char> = Vec::new();
            escape_into(&mut value, &self.entries[i].1);
            out.push((key, value));
        }
        let ghost s = self.entries@;
        let ghost t = out@;
        proof {
            assert(keys_distinct(t)) by {
                assert forall|a: int, b: int| 0 <= a < b < t.len() implies t[a].0@ != t[b].0@ by {
                    assert(t[a].0@ == s[a].0@ && t[b].0@ == s[b].0@);
                }
            }
            lemma_entries_map(t);
            let m = entries_map(s).map_values(|v: Seq<char>| html_escaped(v));
            assert forall|k: Seq<char>| #[trigger]
                entries_map(t).contains_key(k) == m.contains_key(k) by {
                if entries_map(t).contains_key(k) {
                    let j = choose|j: int| 0 <= j < t.len() && #[trigger] t[j].0@ == k;
                    assert(s[j].0@ == k);
                }
                if m.contains_key(k) {
                    let j = choose|j: int| 0 <= j < s.len() && #[trigger] s[j].0@ == k;
                    assert(t[j].0@ == k);
                }
            }
            assert forall|k: Seq<char>| #[trigger]
                entries_map(t).contains_key(k) implies entries_map(t)[k] == m[k] by {
                let j = choose|j: int| 0 <= j < t.len() && #[trigger] t[j].0@ == k;
                assert(s[j].0@ == k);
            }
            assert(entries_map(t) =~= m);
        }
        Vars { entries: out }
    }
}

} // verus!
