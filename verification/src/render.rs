//! Rendering an email template against runtime values.

use vstd::prelude::*;

use crate::escape::escape_into;
use crate::markdown::{markdown_to_html, markdown_to_text};
use crate::substitute::{substitute, substitute_chars};
use crate::text::{chars_of, push_all, push_str, string_from_chars};
use crate::vars::Vars;

verus! {

/// A fully rendered email: a subject line, a styled HTML body, and a plaintext body.
pub struct RenderedEmail {
    pub subject: String,
    pub html_body: String,
    pub text_body: String,
}

/// An optional call-to-action button rendered below the body.
pub struct Cta {
    pub label: String,
    pub url: String,
}

/// The trusted template pieces a caller assembles for one email.
///
/// `layout` is an HTML shell containing a `{{content}}` slot (where the rendered body and
/// CTA are inserted) and an optional `{{footer}}` slot, plus any `{{token}}` placeholders
/// drawn from [`Vars`]. `subject`, `body_md`, and `footer_md` are markdown/plain copy that
/// may also contain `{{token}}` placeholders.
pub struct EmailTemplate<'a> {
    pub layout: &'a str,
    pub subject: &'a str,
    pub body_md: &'a str,
    pub cta: Option<Cta>,
    pub footer_md: Option<&'a str>,
}

/// The HTML of a call-to-action: a styled button and a plain link under it, with the
/// label and the URL escaped.
pub open spec fn cta_html_of(label: Seq<char>, url: Seq<char>) -> Seq<char> {
    "<div class=\"btn-wrap\"><a class=\"btn\" href=\""@ + crate::escape::html_escaped(url)
        + "\">"@ + crate::escape::html_escaped(label) + "</a></div>\n<p class=\"link-fallback\">"@
        + crate::escape::html_escaped(url) + "</p>"@
}

/// The plaintext of a call-to-action: `label: url`, both raw.
pub open spec fn cta_text_of(label: Seq<char>, url: Seq<char>) -> Seq<char> {
    label + ": "@ + url
}

/// The values as they go into HTML: each one escaped.
pub open spec fn escaped_values(vars: Map<Seq<char>, Seq<char>>) -> Map<Seq<char>, Seq<char>> {
    vars.map_values(|v: Seq<char>| crate::escape::html_escaped(v))
}

/// What fills the `{{content}}` slot: the rendered body with escaped values, then the
/// HTML call-to-action on a line of its own.
pub open spec fn content_slot(tmpl: &EmailTemplate, vars: Map<Seq<char>, Seq<char>>) -> Seq<char> {
    crate::substitute::substituted(
        crate::markdown::markdown_html(tmpl.body_md@, crate::markdown::gfm_option_bits()),
        escaped_values(vars),
    ) + match tmpl.cta {
        Some(cta) => seq!['\n'] + cta_html_of(cta.label@, cta.url@),
        None => Seq::empty(),
    }
}

/// What fills the `{{footer}}` slot: the rendered footer with escaped values, or nothing.
pub open spec fn footer_slot(tmpl: &EmailTemplate, vars: Map<Seq<char>, Seq<char>>) -> Seq<char> {
    match tmpl.footer_md {
        Some(f) => crate::substitute::substituted(
            crate::markdown::markdown_html(f@, crate::markdown::gfm_option_bits()),
            escaped_values(vars),
        ),
        None => Seq::empty(),
    }
}

/// The values the layout is filled with: the escaped values, with the `content` and
/// `footer` slots set last.
pub open spec fn layout_values(tmpl: &EmailTemplate, vars: Map<Seq<char>, Seq<char>>) -> Map<
    Seq<char>,
    Seq<char>,
> {
    escaped_values(vars).insert("content"@, content_slot(tmpl, vars)).insert(
        "footer"@,
        footer_slot(tmpl, vars),
    )
}

/// The HTML body: the layout with its slots and values filled in.
pub open spec fn html_body_of(tmpl: &EmailTemplate, vars: Map<Seq<char>, Seq<char>>) -> Seq<char> {
    crate::substitute::substituted(tmpl.layout@, layout_values(tmpl, vars))
}

/// The plaintext body: the body copy as written, with raw values, then the call-to-action
/// and the footer's text, each after a blank line.
pub open spec fn text_body_of(tmpl: &EmailTemplate, vars: Map<Seq<char>, Seq<char>>) -> Seq<char> {
    crate::substitute::substituted(tmpl.body_md@, vars)
        + match tmpl.cta {
        Some(cta) => "\n\n"@ + cta_text_of(cta.label@, cta.url@),
        None => Seq::empty(),
    } + match tmpl.footer_md {
        Some(f) => "\n\n"@ + crate::substitute::substituted(
            crate::markdown::markdown_text(f@),
            vars,
        ),
        None => Seq::empty(),
    }
}

fn cta_html(cta: &Cta) -> (r: String)
    ensures
        r@ == cta_html_of(cta.label@, cta.url@),
{
    let url = chars_of(cta.url.as_str());
    let label = chars_of(cta.label.as_str());
    let mut out: Vec<char> = Vec::new();
    push_str(&mut out, "<div class=\"btn-wrap\"><a class=\"btn\" href=\"");
    escape_into(&mut out, &url);
    push_str(&mut out, "\">");
    escape_into(&mut out, &label);
    push_str(&mut out, "</a></div>\n<p class=\"link-fallback\">");
    escape_into(&mut out, &url);
    push_str(&mut out, "</p>");
    string_from_chars(&out)
}

fn cta_text(cta: &Cta) -> (r: String)
    ensures
        r@ == cta_text_of(cta.label@, cta.url@),
{
    let mut out: Vec<char> = Vec::new();
    push_str(&mut out, cta.label.as_str());
    push_str(&mut out, ": ");
    push_str(&mut out, cta.url.as_str());
    string_from_chars(&out)
}

/// Render an email template against runtime values.
///
/// Subject and plaintext body use the raw values; the HTML body escapes them *after*
/// markdown rendering. The plaintext body carries the body copy as written, so its
/// markdown stays readable as such, and the footer's plaintext rendering. The CTA (if
/// any) is appended to both bodies, and `{{content}}` / `{{footer}}` are filled into the
/// layout last so values can never collide with layout tokens.
pub fn render(tmpl: &EmailTemplate, vars: &Vars) -> (r: RenderedEmail)
    ensures
        r.subject@ == crate::substitute::substituted(tmpl.subject@, vars@),
        r.html_body@ == html_body_of(tmpl, vars@),
        r.text_body@ == text_body_of(tmpl, vars@),
{
    let escaped = vars.escaped();

    let subject = substitute(tmpl.subject, vars);

    let body_html = markdown_to_html(tmpl.body_md);
    let mut content_html = substitute_chars(&chars_of(body_html.as_str()), &escaped);
    match &tmpl.cta {
        Some(cta) => {
            content_html.push('\n');
            let button = cta_html(cta);
            push_str(&mut content_html, button.as_str());
        },
        None => {},
    }
    let footer_html = match tmpl.footer_md {
        Some(f) => {
            let footer = markdown_to_html(f);
            substitute_chars(&chars_of(footer.as_str()), &escaped)
        },
        None => Vec::new(),
    };

    // Fill the layout in one pass: escaped user vars plus the `content`/`footer`
    // slots. `substitute` never rescans inserted text, so a user value that happens
    // to contain `{{content}}`/`{{footer}}` cannot collide with the layout slots.
    let mut layout_vars = escaped;
    layout_vars.insert_chars(chars_of("content"), content_html);
    layout_vars.insert_chars(chars_of("footer"), footer_html);
    let html_body = substitute(tmpl.layout, &layout_vars);
    proof {
        assert(escaped@ == escaped_values(vars@));
        assert(content_html@ == content_slot(tmpl, vars@));
        assert(footer_html@ == footer_slot(tmpl, vars@));
        assert(layout_vars@ == layout_values(tmpl, vars@));
    }

    // The body copy goes into the plaintext as written, so its markdown stays readable
    // as such (`**bold**` keeps its markers).
    let mut text_body: Vec<char> = substitute_chars(&chars_of(tmpl.body_md), vars);
    match &tmpl.cta {
        Some(cta) => {
            push_str(&mut text_body, "\n\n");
            let line = cta_text(cta);
            push_str(&mut text_body, line.as_str());
        },
        None => {},
    }
    match tmpl.footer_md {
        Some(footer) => {
            push_str(&mut text_body, "\n\n");
            let footer_text = markdown_to_text(footer);
            let filled = substitute_chars(&chars_of(footer_text.as_str()), vars);
            push_all(&mut text_body, &filled);
        },
        None => {},
    }

    RenderedEmail { subject, html_body, text_body: string_from_chars(&text_body) }
}

/// Every value that goes into the HTML body is escaped, so none of them carries a
/// character that opens or delimits markup.
pub proof fn lemma_html_values_markup_free(vars: Map<Seq<char>, Seq<char>>)
    ensures
        forall|k: Seq<char>| #[trigger]
            escaped_values(vars).contains_key(k) ==> crate::escape::markup_free(
                escaped_values(vars)[k],
            ),
{
    assert forall|k: Seq<char>| #[trigger]
        escaped_values(vars).contains_key(k) implies crate::escape::markup_free(
        escaped_values(vars)[k],
    ) by {
        crate::escape::lemma_escaped_is_markup_free(vars[k]);
    }
}

/// The layout's slots are filled last: whatever the values hold, even under the names
/// `content` and `footer`, the `content` slot gets the rendered body and call-to-action
/// and the `footer` slot the rendered footer.
pub proof fn lemma_slots_filled_last(tmpl: &EmailTemplate, vars: Map<Seq<char>, Seq<char>>)
    ensures
        layout_values(tmpl, vars)["content"@] == content_slot(tmpl, vars),
        layout_values(tmpl, vars)["footer"@] == footer_slot(tmpl, vars),
        layout_values(tmpl, vars).contains_key("content"@),
        layout_values(tmpl, vars).contains_key("footer"@),
{
    reveal_strlit("content");
    reveal_strlit("footer");
    assert("content"@ != "footer"@) by {
        assert("content"@[0] != "footer"@[0]);
    }
}

/// A `{{content}}` placeholder in the layout becomes the rendered body, and the values
/// inserted there are not rescanned: the rest of the layout is filled on its own.
pub proof fn lemma_content_slot_in_layout(
    tmpl: &EmailTemplate,
    vars: Map<Seq<char>, Seq<char>>,
    p: Seq<char>,
    k: Seq<char>,
    s: Seq<char>,
)
    requires
        tmpl.layout@ == p + crate::substitute::placeholder(k) + s,
        crate::substitute::lacks(p, '{'),
        crate::substitute::lacks(k, '}'),
        crate::text::trimmed(k) == "content"@,
    ensures
        html_body_of(tmpl, vars) == p + content_slot(tmpl, vars) + crate::substitute::substituted(
            s,
            layout_values(tmpl, vars),
        ),
{
    lemma_slots_filled_last(tmpl, vars);
    crate::substitute::lemma_substitute_known_token(p, k, s, layout_values(tmpl, vars));
}

/// The plaintext body keeps its parts in order: the body, then the call-to-action as
/// `label: url` right after it, then the footer's text last, each after a blank line,
/// all with the raw values.
pub proof fn lemma_text_body_order(tmpl: &EmailTemplate, vars: Map<Seq<char>, Seq<char>>)
    requires
        tmpl.cta is Some,
        tmpl.footer_md is Some,
    ensures
        text_body_of(tmpl, vars) == crate::substitute::substituted(tmpl.body_md@, vars) + "\n\n"@
            + tmpl.cta.unwrap().label@ + ": "@ + tmpl.cta.unwrap().url@ + "\n\n"@
            + crate::substitute::substituted(
            crate::markdown::markdown_text(tmpl.footer_md.unwrap()@),
            vars,
        ),
{
    let b = crate::substitute::substituted(tmpl.body_md@, vars);
    let c = tmpl.cta.unwrap();
    let f = crate::substitute::substituted(
        crate::markdown::markdown_text(tmpl.footer_md.unwrap()@),
        vars,
    );
    assert(b + ("\n\n"@ + (c.label@ + ": "@ + c.url@)) + ("\n\n"@ + f) == b + "\n\n"@ + c.label@
        + ": "@ + c.url@ + "\n\n"@ + f);
}

/// The footer comes last in the plaintext body, filled with the raw values: the body
/// ends with a blank line and the footer's text substituted with the values as given.
pub proof fn lemma_text_body_ends_with_raw_footer(
    tmpl: &EmailTemplate,
    vars: Map<Seq<char>, Seq<char>>,
)
    requires
        tmpl.footer_md is Some,
    ensures
        ({
            let text = text_body_of(tmpl, vars);
            let f = crate::substitute::substituted(
                crate::markdown::markdown_text(tmpl.footer_md.unwrap()@),
                vars,
            );
            &&& text.len() >= f.len() + 2
            &&& text.subrange(text.len() - f.len() - 2, text.len() as int) == "\n\n"@ + f
        }),
{
    reveal_strlit("\n\n");
    let text = text_body_of(tmpl, vars);
    let f = crate::substitute::substituted(
        crate::markdown::markdown_text(tmpl.footer_md.unwrap()@),
        vars,
    );
    let head = crate::substitute::substituted(tmpl.body_md@, vars) + match tmpl.cta {
        Some(cta) => "\n\n"@ + cta_text_of(cta.label@, cta.url@),
        None => Seq::empty(),
    };
    assert(text == head + ("\n\n"@ + f));
    assert(text.subrange(head.len() as int, text.len() as int) == "\n\n"@ + f);
}

/// A footer placeholder is filled with the raw value, whatever characters it holds:
/// when the footer's plaintext is `p` followed by a `{{k}}` placeholder whose name has a
/// value `v`, and there is no call-to-action, the plaintext body is the body, a blank
/// line, `p` and `v` itself.
pub proof fn lemma_text_footer_value_raw(
    tmpl: &EmailTemplate,
    vars: Map<Seq<char>, Seq<char>>,
    p: Seq<char>,
    k: Seq<char>,
)
    requires
        tmpl.cta is None,
        tmpl.footer_md is Some,
        crate::markdown::markdown_text(tmpl.footer_md.unwrap()@) == p
            + crate::substitute::placeholder(k),
        crate::substitute::lacks(p, '{'),
        crate::substitute::lacks(k, '{'),
        crate::substitute::lacks(k, '}'),
        vars.contains_key(crate::text::trimmed(k)),
    ensures
        text_body_of(tmpl, vars) == crate::substitute::substituted(tmpl.body_md@, vars) + "\n\n"@
            + p + vars[crate::text::trimmed(k)],
{
    let e = Seq::<char>::empty();
    assert(p + crate::substitute::placeholder(k) + e == p + crate::substitute::placeholder(k));
    crate::substitute::lemma_substitute_token(p, k, e, vars);
    crate::substitute::lemma_substitute_without_values(e);
    crate::substitute::lemma_substitute_plain(e, vars);
    let b = crate::substitute::substituted(tmpl.body_md@, vars);
    let v = vars[crate::text::trimmed(k)];
    assert(p + v + e == p + v);
    assert(b + e + ("\n\n"@ + (p + v)) == b + "\n\n"@ + p + v);
}

} // verus!
