//! HTML escaping of interpolated values.

use vstd::prelude::*;

verus! {

/// The escape sequence that stands for `c` in HTML, or `c` itself when it is not
/// one of the five HTML-significant characters.
pub open spec fn escape_char(c: char) -> Seq<char> {
    if c == '&' {
        seq!['&', 'a', 'm', 'p', ';']
    } else if c == '<' {
        seq!['&', 'l', 't', ';']
    } else if c == '>' {
        seq!['&', 'g', 't', ';']
    } else if c == '"' {
        seq!['&', 'q', 'u', 'o', 't', ';']
    } else if c == '\'' {
        seq!['&', '#', '3', '9', ';']
    } else {
        seq![c]
    }
}

/// `s` with every character replaced by its escape sequence.
pub open spec fn html_escaped(s: Seq<char>) -> Seq<char>
    decreases s.len(),
{
    if s.len() == 0 {
        Seq::empty()
    } else {
        html_escaped(s.drop_last()) + escape_char(s.last())
    }
}

/// True when `s` holds none of the characters that open or delimit markup.
pub open spec fn markup_free(s: Seq<char>) -> bool {
    forall|i: int| 0 <= i < s.len() ==> s[i] != '<' && s[i] != '>' && s[i] != '"' && s[i] != '\''
}

/// Appends the escaped form of `src` to `out`.
pub fn escape_into(out: &mut Vec<char>, src: &Vec<char>)
    ensures
        final(out)@ == old(out)@ + html_escaped(src@),
{
    let ghost start = out@;
    for i in 0..src.len()
        invariant
            out@ == start + html_escaped(src@.take(i as int)),
    {
        let c = src[i];
        proof {
            assert(src@.take(i + 1).drop_last() == src@.take(i as int));
        }
        if c == '&' {
            out.push('&');
            out.push('a');
            out.push('m');
            out.push('p');
            out.push(';');
        } else if c == '<' {
            out.push('&');
            out.push('l');
            out.push('t');
            out.push(';');
        } else if c == '>' {
            out.push('&');
            out.push('g');
            out.push('t');
            out.push(';');
        } else if c == '"' {
            out.push('&');
            out.push('q');
            out.push('u');
            out.push('o');
            out.push('t');
            out.push(';');
        } else if c == '\'' {
            out.push('&');
            out.push('#');
            out.push('3');
            out.push('9');
            out.push(';');
        } else {
            out.push(c);
        }
        proof {
            assert(out@ == start + html_escaped(src@.take(i + 1)));
        }
    }
    proof {
        assert(src@.take(src.len() as int) == src@);
    }
}

/// Escape the five HTML-significant characters for safe interpolation into markup.
pub fn html_escape(s: &str) -> (r: String)
    ensures
        r@ == html_escaped(s@),
{
    let cs = crate::text::chars_of(s);
    let mut out: Vec<char> = Vec::new();
    escape_into(&mut out, &cs);
    crate::text::string_from_chars(&out)
}

/// Escaping leaves no character that could open or delimit markup, so an escaped value
/// cannot inject tags or break out of an attribute.
pub proof fn lemma_escaped_is_markup_free(s: Seq<char>)
    ensures
        markup_free(html_escaped(s)),
    decreases s.len(),
{
    if s.len() > 0 {
        lemma_escaped_is_markup_free(s.drop_last());
        let a = html_escaped(s.drop_last());
        let b = escape_char(s.last());
        assert forall|i: int| 0 <= i < (a + b).len() implies (a + b)[i] != '<' && (a + b)[i] != '>'
            && (a + b)[i] != '"' && (a + b)[i] != '\'' by {
            if i >= a.len() {
                assert((a + b)[i] == b[i - a.len()]);
            }
        }
    }
}

/// A string with none of the five HTML-significant characters escapes to itself.
pub proof fn lemma_escape_plain_identity(s: Seq<char>)
    requires
        forall|i: int| 0 <= i < s.len() ==> s[i] != '&' && s[i] != '<' && s[i] != '>' && s[i] != '"' && s[i] != '\'',
    ensures
        html_escaped(s) == s,
    decreases s.len(),
{
    if s.len() > 0 {
        lemma_escape_plain_identity(s.drop_last());
        assert(s.drop_last().push(s.last()) == s);
    }
}

/// Escaping distributes over concatenation.
pub proof fn lemma_escape_concat(a: Seq<char>, b: Seq<char>)
    ensures
        html_escaped(a + b) == html_escaped(a) + html_escaped(b),
    decreases b.len(),
{
    if b.len() == 0 {
        assert(a + b == a);
    } else {
        lemma_escape_concat(a, b.drop_last());
        assert((a + b).drop_last() == a + b.drop_last());
    }
}

} // verus!
