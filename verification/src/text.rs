//! Character-level helpers shared by the rendering code: conversions between strings
//! and character vectors, and whitespace trimming.

use vstd::prelude::*;

verus! {

/// `String::push` appends one character to the end of the string.
pub assume_specification[ String::push ](s: &mut String, ch: char)
    ensures
        final(s)@ == old(s)@.push(ch),
;

/// Whether `c` has the Unicode `White_Space` property (PropList.txt): the controls
/// U+0009 to U+000D, the space, U+0085, the no-break space U+00A0, U+1680, the spaces
/// U+2000 to U+200A, the line and paragraph separators U+2028 and U+2029, U+202F, U+205F
/// and the ideographic space U+3000.
pub open spec fn unicode_white_space(c: char) -> bool {
    ||| '\u{9}' <= c <= '\u{d}'
    ||| c == ' '
    ||| c == '\u{85}'
    ||| c == '\u{a0}'
    ||| c == '\u{1680}'
    ||| '\u{2000}' <= c <= '\u{200a}'
    ||| c == '\u{2028}'
    ||| c == '\u{2029}'
    ||| c == '\u{202f}'
    ||| c == '\u{205f}'
    ||| c == '\u{3000}'
}

/// `char::is_whitespace` is true exactly of the characters with the Unicode `White_Space`
/// property.
pub assume_specification[ char::is_whitespace ](c: char) -> (b: bool)
    ensures
        b == unicode_white_space(c),
;

/// `s` without its leading whitespace.
pub open spec fn trim_start(s: Seq<char>) -> Seq<char>
    decreases s.len(),
{
    if s.len() > 0 && unicode_white_space(s[0]) {
        trim_start(s.drop_first())
    } else {
        s
    }
}

/// `s` without its trailing whitespace.
pub open spec fn trim_end(s: Seq<char>) -> Seq<char>
    decreases s.len(),
{
    if s.len() > 0 && unicode_white_space(s.last()) {
        trim_end(s.drop_last())
    } else {
        s
    }
}

/// `s` with leading and trailing whitespace removed, as `str::trim` does.
pub open spec fn trimmed(s: Seq<char>) -> Seq<char> {
    trim_end(trim_start(s))
}

/// The first position at or after `from` where `c` occurs in `s`.
pub open spec fn find_char(s: Seq<char>, from: int, c: char) -> Option<int>
    decreases s.len() - from,
{
    if from < 0 || from >= s.len() {
        None
    } else if s[from] == c {
        Some(from)
    } else {
        find_char(s, from + 1, c)
    }
}

/// What `find_char` finds: an occurrence of `c` at or after `from`.
pub proof fn lemma_find_char(s: Seq<char>, from: int, c: char)
    requires
        0 <= from,
    ensures
        find_char(s, from, c) matches Some(i) ==> from <= i < s.len() && s[i] == c,
        find_char(s, from, c) is None ==> forall|j: int| from <= j < s.len() ==> s[j] != c,
    decreases s.len() - from,
{
    if from < s.len() && s[from] != c {
        lemma_find_char(s, from + 1, c);
    }
}

/// The first position at or after `from` where `c` occurs in `src`, or `src.len()`.
pub fn find_char_from(src: &Vec<char>, from: usize, c: char) -> (r: usize)
    requires
        from <= src.len(),
    ensures
        from <= r <= src.len(),
        r < src.len() ==> find_char(src@, from as int, c) == Some(r as int),
        r == src.len() ==> find_char(src@, from as int, c) is None,
{
    let mut i = from;
    while i < src.len() && src[i] != c
        invariant
            from <= i <= src.len(),
            find_char(src@, i as int, c) == find_char(src@, from as int, c),
        decreases src.len() - i,
    {
        i += 1;
    }
    i
}

/// The characters of `s`, in order.
pub fn chars_of(s: &str) -> (v: Vec<char>)
    ensures
        v@ == s@,
{
    let mut v: Vec<char> = Vec::new();
    for c in it: s.chars()
        invariant
            v@ == it.seq().take(it.index()),
    {
        v.push(c);
    }
    v
}

/// A `String` holding exactly the characters of `v`.
pub fn string_from_chars(v: &Vec<char>) -> (s: String)
    ensures
        s@ == v@,
{
    let mut s = String::new();
    for i in 0..v.len()
        invariant
            s@ == v@.take(i as int),
    {
        s.push(v[i]);
    }
    s
}

/// Whether `a` holds the same characters as `src[from..to]`.
pub fn chars_equal_range(a: &Vec<char>, src: &Vec<char>, from: usize, to: usize) -> (r: bool)
    requires
        from <= to <= src.len(),
    ensures
        r == (a@ == src@.subrange(from as int, to as int)),
{
    if a.len() != to - from {
        return false;
    }
    let mut i: usize = 0;
    while i < a.len()
        invariant
            from <= to <= src.len(),
            a.len() == to - from,
            0 <= i <= a.len(),
            forall|j: int| 0 <= j < i ==> a@[j] == src@[from + j],
        decreases a.len() - i,
    {
        if a[i] != src[from + i] {
            return false;
        }
        i += 1;
    }
    assert(a@ == src@.subrange(from as int, to as int));
    true
}

/// Appends `src[from..to]` to `out`.
pub fn push_range(out: &mut Vec<char>, src: &Vec<char>, from: usize, to: usize)
    requires
        from <= to <= src.len(),
    ensures
        final(out)@ == old(out)@ + src@.subrange(from as int, to as int),
{
    let ghost start = out@;
    let mut i = from;
    while i < to
        invariant
            from <= i <= to <= src.len(),
            out@ == start + src@.subrange(from as int, i as int),
        decreases to - i,
    {
        out.push(src[i]);
        i += 1;
        proof {
            assert(src@.subrange(from as int, i as int) == src@.subrange(from as int, i - 1).push(
                src@[i - 1],
            ));
        }
    }
}

/// Appends all of `src` to `out`.
pub fn push_all(out: &mut Vec<char>, src: &Vec<char>)
    ensures
        final(out)@ == old(out)@ + src@,
{
    push_range(out, src, 0, src.len());
    proof {
        assert(src@.subrange(0, src@.len() as int) == src@);
    }
}

/// Appends the characters of `s` to `out`.
pub fn push_str(out: &mut Vec<char>, s: &str)
    ensures
        final(out)@ == old(out)@ + s@,
{
    let cs = chars_of(s);
    push_all(out, &cs);
}

/// The bounds of `src[lo..hi]` with its leading and trailing whitespace removed.
pub fn trim_bounds(src: &Vec<char>, lo: usize, hi: usize) -> (r: (usize, usize))
    requires
        lo <= hi <= src.len(),
    ensures
        lo <= r.0 <= r.1 <= hi,
        src@.subrange(r.0 as int, r.1 as int) == trimmed(src@.subrange(lo as int, hi as int)),
{
    let mut a = lo;
    while a < hi && src[a].is_whitespace()
        invariant
            lo <= a <= hi <= src.len(),
            trim_start(src@.subrange(a as int, hi as int)) == trim_start(
                src@.subrange(lo as int, hi as int),
            ),
        decreases hi - a,
    {
        proof {
            assert(src@.subrange(a as int, hi as int).drop_first() == src@.subrange(
                a + 1,
                hi as int,
            ));
        }
        a += 1;
    }
    let ghost front = src@.subrange(a as int, hi as int);
    assert(trim_start(front) == front);
    let mut b = hi;
    while b > a && src[b - 1].is_whitespace()
        invariant
            lo <= a <= b <= hi <= src.len(),
            front == src@.subrange(a as int, hi as int),
            trim_end(src@.subrange(a as int, b as int)) == trim_end(front),
        decreases b - a,
    {
        proof {
            assert(src@.subrange(a as int, b as int).drop_last() == src@.subrange(
                a as int,
                b - 1,
            ));
        }
        b -= 1;
    }
    (a, b)
}

/// Trimming keeps a contiguous stretch of the text, which neither starts nor ends with
/// whitespace.
pub proof fn lemma_trimmed_shape(s: Seq<char>)
    ensures
        exists|a: int, b: int| 0 <= a <= b <= s.len() && trimmed(s) == s.subrange(a, b),
        trimmed(s).len() > 0 ==> !unicode_white_space(trimmed(s)[0]) && !unicode_white_space(
            trimmed(s).last(),
        ),
{
    lemma_trim_start_shape(s);
    let a = choose|a: int| 0 <= a <= s.len() && trim_start(s) == s.subrange(a, s.len() as int);
    let t = trim_start(s);
    lemma_trim_end_shape(t);
    let b = choose|b: int| 0 <= b <= t.len() && trim_end(t) == t.subrange(0, b);
    assert(trimmed(s) == s.subrange(a, a + b));
    if trimmed(s).len() > 0 {
        assert(trimmed(s)[0] == t[0]);
    }
}

proof fn lemma_trim_start_shape(s: Seq<char>)
    ensures
        exists|a: int| 0 <= a <= s.len() && trim_start(s) == s.subrange(a, s.len() as int),
        trim_start(s).len() > 0 ==> !unicode_white_space(trim_start(s)[0]),
    decreases s.len(),
{
    if s.len() > 0 && unicode_white_space(s[0]) {
        lemma_trim_start_shape(s.drop_first());
        let a = choose|a: int|
            0 <= a <= s.drop_first().len() && trim_start(s.drop_first()) == s.drop_first().subrange(
                a,
                s.drop_first().len() as int,
            );
        assert(trim_start(s) == s.subrange(a + 1, s.len() as int));
    } else {
        assert(trim_start(s) == s.subrange(0, s.len() as int));
    }
}

proof fn lemma_trim_end_shape(s: Seq<char>)
    ensures
        exists|b: int| 0 <= b <= s.len() && trim_end(s) == s.subrange(0, b),
        trim_end(s).len() > 0 ==> !unicode_white_space(trim_end(s).last()),
    decreases s.len(),
{
    if s.len() > 0 && unicode_white_space(s.last()) {
        lemma_trim_end_shape(s.drop_last());
        let b = choose|b: int|
            0 <= b <= s.drop_last().len() && trim_end(s.drop_last()) == s.drop_last().subrange(0, b);
        assert(trim_end(s) == s.subrange(0, b));
    } else {
        assert(trim_end(s) == s.subrange(0, s.len() as int));
    }
}

} // verus!
