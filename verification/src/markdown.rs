//! Markdown rendering: to HTML through pulldown-cmark, and to plaintext from the parsed
//! event stream.

use vstd::prelude::*;

use pulldown_cmark::Event::{
    Code, DisplayMath, End, FootnoteReference, HardBreak, Html, InlineHtml, InlineMath, Rule,
    SoftBreak, Start, TaskListMarker, Text,
};
use pulldown_cmark::{html, Options, Parser};

use crate::text::{
    chars_equal_range, chars_of, lemma_trimmed_shape, push_range, push_str,
    string_from_chars, trim_bounds, trimmed, unicode_white_space,
};

verus! {

/// pulldown-cmark's `Options::ENABLE_TABLES` flag.
pub const ENABLE_TABLES: u32 = 1 << 1;

/// pulldown-cmark's `Options::ENABLE_STRIKETHROUGH` flag.
pub const ENABLE_STRIKETHROUGH: u32 = 1 << 3;

/// pulldown-cmark's `Options::ENABLE_GFM` flag.
pub const ENABLE_GFM: u32 = 1 << 11;

/// The parser options markdown is rendered with: GFM tables, strikethrough and the other
/// GFM extensions.
pub open spec fn gfm_option_bits() -> u32 {
    ENABLE_STRIKETHROUGH | ENABLE_TABLES | ENABLE_GFM
}

/// The parser options markdown is rendered with: GFM tables, strikethrough and the other
/// GFM extensions.
pub fn gfm_options() -> (options: u32)
    ensures
        options == gfm_option_bits(),
{
    ENABLE_STRIKETHROUGH | ENABLE_TABLES | ENABLE_GFM
}

/// A markdown element kind: pulldown-cmark's `Tag` and `TagEnd` without their payloads.
pub enum MdTag {
    Paragraph,
    Heading,
    BlockQuote,
    CodeBlock,
    HtmlBlock,
    List,
    Item,
    FootnoteDefinition,
    DefinitionList,
    DefinitionListTitle,
    DefinitionListDefinition,
    Table,
    TableHead,
    TableRow,
    TableCell,
    Emphasis,
    Strong,
    Strikethrough,
    Link,
    Image,
    MetadataBlock,
    /// A name that is none of the above.
    Unrecognized,
}

/// A markdown event, one for each of pulldown-cmark's `Event` variants. A `Start` or
/// `End` carries the element as pulldown-cmark prints its `Tag` or `TagEnd` with `Debug`
/// (such as `Item`, `Heading(H2)` or `Heading { level: H2, .. }`).
pub enum MarkdownEvent {
    Start(String),
    End(String),
    Text(String),
    Code(String),
    InlineMath(String),
    DisplayMath(String),
    Html(String),
    InlineHtml(String),
    FootnoteReference(String),
    SoftBreak,
    HardBreak,
    Rule,
    TaskListMarker(bool),
}

/// A markdown event with its text as a character sequence.
pub enum MarkdownEventView {
    Start(Seq<char>),
    End(Seq<char>),
    Text(Seq<char>),
    Code(Seq<char>),
    InlineMath(Seq<char>),
    DisplayMath(Seq<char>),
    Html(Seq<char>),
    InlineHtml(Seq<char>),
    FootnoteReference(Seq<char>),
    SoftBreak,
    HardBreak,
    Rule,
    TaskListMarker(bool),
}

impl View for MarkdownEvent {
    type V = MarkdownEventView;

    open spec fn view(&self) -> MarkdownEventView {
        match self {
            MarkdownEvent::Start(s) => MarkdownEventView::Start(s@),
            MarkdownEvent::End(s) => MarkdownEventView::End(s@),
            MarkdownEvent::Text(s) => MarkdownEventView::Text(s@),
            MarkdownEvent::Code(s) => MarkdownEventView::Code(s@),
            MarkdownEvent::InlineMath(s) => MarkdownEventView::InlineMath(s@),
            MarkdownEvent::DisplayMath(s) => MarkdownEventView::DisplayMath(s@),
            MarkdownEvent::Html(s) => MarkdownEventView::Html(s@),
            MarkdownEvent::InlineHtml(s) => MarkdownEventView::InlineHtml(s@),
            MarkdownEvent::FootnoteReference(s) => MarkdownEventView::FootnoteReference(s@),
            MarkdownEvent::SoftBreak => MarkdownEventView::SoftBreak,
            MarkdownEvent::HardBreak => MarkdownEventView::HardBreak,
            MarkdownEvent::Rule => MarkdownEventView::Rule,
            MarkdownEvent::TaskListMarker(done) => MarkdownEventView::TaskListMarker(*done),
        }
    }
}

/// The HTML that pulldown-cmark renders for `md` under the option bits `options`.
pub uninterp spec fn markdown_html(md: Seq<char>, options: u32) -> Seq<char>;

/// The events that pulldown-cmark parses from `md` under the option bits `options`.
pub uninterp spec fn markdown_events(md: Seq<char>, options: u32) -> Seq<MarkdownEventView>;

/// Renders `md` to HTML with `pulldown_cmark::html::push_html` over a
/// `pulldown_cmark::Parser` built with the option bits `options`; the contract names the
/// result and states nothing of its form.
#[verifier::external_body]
fn push_markdown_html(md: &str, options: u32) -> (out: String)
    ensures
        out@ == markdown_html(md@, options),
{
    let mut out = String::new();
    html::push_html(&mut out, Parser::new_ext(md, Options::from_bits_truncate(options)));
    out
}

/// The events of `pulldown_cmark::Parser` over `md` with the option bits `options`, each
/// as the `MarkdownEvent` of the same variant; the contract names the sequence and states
/// nothing of how the parser splits the text.
#[verifier::external_body]
fn parse_markdown(md: &str, options: u32) -> (events: Vec<MarkdownEvent>)
    ensures
        events@.map_values(|e: MarkdownEvent| e@) == markdown_events(md@, options),
{
    Parser::new_ext(md, Options::from_bits_truncate(options)).map(|event| match event {
        Start(tag) => MarkdownEvent::Start(format!("{tag:?}")),
        End(tag) => MarkdownEvent::End(format!("{tag:?}")),
        Text(t) => MarkdownEvent::Text(t.into_string()),
        Code(t) => MarkdownEvent::Code(t.into_string()),
        InlineMath(t) => MarkdownEvent::InlineMath(t.into_string()),
        DisplayMath(t) => MarkdownEvent::DisplayMath(t.into_string()),
        Html(t) => MarkdownEvent::Html(t.into_string()),
        InlineHtml(t) => MarkdownEvent::InlineHtml(t.into_string()),
        FootnoteReference(t) => MarkdownEvent::FootnoteReference(t.into_string()),
        SoftBreak => MarkdownEvent::SoftBreak,
        HardBreak => MarkdownEvent::HardBreak,
        Rule => MarkdownEvent::Rule,
        TaskListMarker(done) => MarkdownEvent::TaskListMarker(done),
    }).collect()
}

/// Render trusted markdown (GFM tables, strikethrough, inline HTML passthrough) to HTML.
///
/// This does not sanitize: the input is assumed to be your own template copy, not user
/// input. Never feed untrusted content here.
pub fn markdown_to_html(trusted_md: &str) -> (html: String)
    ensures
        html@ == markdown_html(trusted_md@, gfm_option_bits()),
{
    push_markdown_html(trusted_md, gfm_options())
}

/// The first position at or after `from` where a printed tag's name ends: its first
/// `(` or space.
pub open spec fn name_end(name: Seq<char>, from: int) -> int
    decreases name.len() - from,
{
    if from < 0 || from >= name.len() || name[from] == '(' || name[from] == ' ' {
        from
    } else {
        name_end(name, from + 1)
    }
}

/// The element kind's name in a printed tag: the text before its first `(` or space.
pub open spec fn tag_base(name: Seq<char>) -> Seq<char> {
    name.subrange(0, name_end(name, 0))
}

/// The element kind with the name `base`.
pub open spec fn tag_named(base: Seq<char>) -> MdTag {
    if base == "Paragraph"@ {
        MdTag::Paragraph
    } else if base == "Heading"@ {
        MdTag::Heading
    } else if base == "BlockQuote"@ {
        MdTag::BlockQuote
    } else if base == "CodeBlock"@ {
        MdTag::CodeBlock
    } else if base == "HtmlBlock"@ {
        MdTag::HtmlBlock
    } else if base == "List"@ {
        MdTag::List
    } else if base == "Item"@ {
        MdTag::Item
    } else if base == "FootnoteDefinition"@ {
        MdTag::FootnoteDefinition
    } else if base == "DefinitionList"@ {
        MdTag::DefinitionList
    } else if base == "DefinitionListTitle"@ {
        MdTag::DefinitionListTitle
    } else if base == "DefinitionListDefinition"@ {
        MdTag::DefinitionListDefinition
    } else if base == "Table"@ {
        MdTag::Table
    } else if base == "TableHead"@ {
        MdTag::TableHead
    } else if base == "TableRow"@ {
        MdTag::TableRow
    } else if base == "TableCell"@ {
        MdTag::TableCell
    } else if base == "Emphasis"@ {
        MdTag::Emphasis
    } else if base == "Strong"@ {
        MdTag::Strong
    } else if base == "Strikethrough"@ {
        MdTag::Strikethrough
    } else if base == "Link"@ {
        MdTag::Link
    } else if base == "Image"@ {
        MdTag::Image
    } else if base == "MetadataBlock"@ {
        MdTag::MetadataBlock
    } else {
        MdTag::Unrecognized
    }
}

/// Whether `cs[..end]` is `name`.
fn name_is(cs: &Vec<char>, end: usize, name: &str) -> (r: bool)
    requires
        end <= cs.len(),
    ensures
        r == (cs@.subrange(0, end as int) == name@),
{
    let n = chars_of(name);
    chars_equal_range(&n, cs, 0, end)
}

/// The element kind of a printed tag.
pub fn md_tag_of(name: &String) -> (t: MdTag)
    ensures
        t == tag_named(tag_base(name@)),
{
    let cs = chars_of(name.as_str());
    let mut end: usize = 0;
    while end < cs.len() && cs[end] != '(' && cs[end] != ' '
        invariant
            end <= cs.len(),
            name_end(cs@, end as int) == name_end(cs@, 0),
        decreases cs.len() - end,
    {
        end += 1;
    }
    if name_is(&cs, end, "Paragraph") {
        return MdTag::Paragraph;
    }
    if name_is(&cs, end, "Heading") {
        return MdTag::Heading;
    }
    if name_is(&cs, end, "BlockQuote") {
        return MdTag::BlockQuote;
    }
    if name_is(&cs, end, "CodeBlock") {
        return MdTag::CodeBlock;
    }
    if name_is(&cs, end, "HtmlBlock") {
        return MdTag::HtmlBlock;
    }
    if name_is(&cs, end, "List") {
        return MdTag::List;
    }
    if name_is(&cs, end, "Item") {
        return MdTag::Item;
    }
    if name_is(&cs, end, "FootnoteDefinition") {
        return MdTag::FootnoteDefinition;
    }
    if name_is(&cs, end, "DefinitionList") {
        return MdTag::DefinitionList;
    }
    if name_is(&cs, end, "DefinitionListTitle") {
        return MdTag::DefinitionListTitle;
    }
    if name_is(&cs, end, "DefinitionListDefinition") {
        return MdTag::DefinitionListDefinition;
    }
    if name_is(&cs, end, "Table") {
        return MdTag::Table;
    }
    if name_is(&cs, end, "TableHead") {
        return MdTag::TableHead;
    }
    if name_is(&cs, end, "TableRow") {
        return MdTag::TableRow;
    }
    if name_is(&cs, end, "TableCell") {
        return MdTag::TableCell;
    }
    if name_is(&cs, end, "Emphasis") {
        return MdTag::Emphasis;
    }
    if name_is(&cs, end, "Strong") {
        return MdTag::Strong;
    }
    if name_is(&cs, end, "Strikethrough") {
        return MdTag::Strikethrough;
    }
    if name_is(&cs, end, "Link") {
        return MdTag::Link;
    }
    if name_is(&cs, end, "Image") {
        return MdTag::Image;
    }
    if name_is(&cs, end, "MetadataBlock") {
        return MdTag::MetadataBlock;
    }
    MdTag::Unrecognized
}

/// The plaintext that opening an element contributes: a list marker for a list item.
pub open spec fn start_text(tag: MdTag) -> Seq<char> {
    match tag {
        MdTag::Item => seq!['-', ' '],
        _ => Seq::empty(),
    }
}

/// The plaintext that closing an element contributes: a line end after a list item, a
/// blank line after a paragraph, a heading or a code block.
pub open spec fn end_text(tag: MdTag) -> Seq<char> {
    match tag {
        MdTag::Item => seq!['\n'],
        MdTag::Paragraph => seq!['\n', '\n'],
        MdTag::Heading => seq!['\n', '\n'],
        MdTag::CodeBlock => seq!['\n', '\n'],
        _ => Seq::empty(),
    }
}

/// The plaintext that one event contributes: text and inline code as they are, a line
/// end for a line break, the markers of list items and block ends; nothing for math,
/// HTML, footnote references, rules and task markers, nor for emphasis or link markup.
pub open spec fn event_text(e: MarkdownEventView) -> Seq<char> {
    match e {
        MarkdownEventView::Start(name) => start_text(tag_named(tag_base(name))),
        MarkdownEventView::End(name) => end_text(tag_named(tag_base(name))),
        MarkdownEventView::Text(t) => t,
        MarkdownEventView::Code(t) => t,
        MarkdownEventView::SoftBreak => seq!['\n'],
        MarkdownEventView::HardBreak => seq!['\n'],
        _ => Seq::empty(),
    }
}

/// Appends the plaintext of `e` to `out`.
fn push_event_text(out: &mut Vec<char>, e: &MarkdownEvent)
    ensures
        final(out)@ == old(out)@ + event_text(e@),
{
    match e {
        MarkdownEvent::Start(name) => {
            match md_tag_of(name) {
                MdTag::Item => {
                    out.push('-');
                    out.push(' ');
                },
                _ => {},
            }
        },
        MarkdownEvent::End(name) => {
            match md_tag_of(name) {
                MdTag::Item => out.push('\n'),
                MdTag::Paragraph | MdTag::Heading | MdTag::CodeBlock => {
                    out.push('\n');
                    out.push('\n');
                },
                _ => {},
            }
        },
        MarkdownEvent::Text(t) => push_str(out, t.as_str()),
        MarkdownEvent::Code(t) => push_str(out, t.as_str()),
        MarkdownEvent::SoftBreak => out.push('\n'),
        MarkdownEvent::HardBreak => out.push('\n'),
        _ => {},
    }
}

/// The plaintext of an event stream: the contributions of its events, in order.
pub open spec fn events_text(events: Seq<MarkdownEventView>) -> Seq<char>
    decreases events.len(),
{
    if events.len() == 0 {
        Seq::empty()
    } else {
        events_text(events.drop_last()) + event_text(events.last())
    }
}

/// Whether position `i` holds a newline preceded by two more newlines.
pub open spec fn third_newline_at(s: Seq<char>, i: int) -> bool {
    2 <= i < s.len() && s[i] == '\n' && s[i - 1] == '\n' && s[i - 2] == '\n'
}

/// `s` with every run of three or more newlines cut down to two.
pub open spec fn collapse_newlines(s: Seq<char>) -> Seq<char>
    decreases s.len(),
{
    if s.len() == 0 {
        Seq::empty()
    } else if third_newline_at(s, s.len() - 1) {
        collapse_newlines(s.drop_last())
    } else {
        collapse_newlines(s.drop_last()).push(s.last())
    }
}

/// The plaintext rendering of `md`.
pub open spec fn markdown_text(md: Seq<char>) -> Seq<char> {
    trimmed(collapse_newlines(events_text(markdown_events(md, gfm_option_bits()))))
}

/// Render markdown to clean plaintext for the text/plain body: emphasis markers, code
/// fences, inline HTML, and link URLs are dropped (link text is kept); blocks are
/// separated by blank lines. `{{token}}` placeholders pass through untouched.
pub fn markdown_to_text(md: &str) -> (text: String)
    ensures
        text@ == markdown_text(md@),
{
    let events = parse_markdown(md, gfm_options());
    let ghost evs = events@.map_values(|e: MarkdownEvent| e@);
    let mut out: Vec<char> = Vec::new();
    for i in 0..events.len()
        invariant
            evs == events@.map_values(|e: MarkdownEvent| e@),
            out@ == events_text(evs.take(i as int)),
    {
        proof {
            assert(evs.take(i + 1).drop_last() == evs.take(i as int));
            assert(evs[i as int] == events@[i as int]@);
        }
        push_event_text(&mut out, &events[i]);
    }
    proof {
        assert(evs.take(events.len() as int) == evs);
    }
    // Collapse runs of 3+ newlines to two and trim the ends.
    let mut collapsed: Vec<char> = Vec::new();
    for i in 0..out.len()
        invariant
            collapsed@ == collapse_newlines(out@.take(i as int)),
    {
        proof {
            assert(out@.take(i + 1).drop_last() == out@.take(i as int));
        }
        let c = out[i];
        if !(c == '\n' && i >= 2 && out[i - 1] == '\n' && out[i - 2] == '\n') {
            collapsed.push(c);
        }
    }
    proof {
        assert(out@.take(out.len() as int) == out@);
    }
    let (a, b) = trim_bounds(&collapsed, 0, collapsed.len());
    proof {
        assert(collapsed@.subrange(0, collapsed.len() as int) == collapsed@);
    }
    let mut text: Vec<char> = Vec::new();
    push_range(&mut text, &collapsed, a, b);
    string_from_chars(&text)
}

/// Whether no three newlines stand in a row in `s`.
pub open spec fn no_newline_triple(s: Seq<char>) -> bool {
    forall|i: int| !#[trigger] third_newline_at(s, i)
}

/// Collapsing leaves no run of three newlines, ends on the same character as its input,
/// and keeps the character before a final newline when that is not itself a newline.
proof fn lemma_collapse_shape(s: Seq<char>)
    ensures
        no_newline_triple(collapse_newlines(s)),
        collapse_newlines(s).len() <= s.len(),
        s.len() > 0 ==> collapse_newlines(s).len() > 0 && collapse_newlines(s).last() == s.last(),
        s.len() >= 2 && s[s.len() - 2] != '\n' ==> collapse_newlines(s).len() >= 2
            && collapse_newlines(s)[collapse_newlines(s).len() - 2] == s[s.len() - 2],
    decreases s.len(),
{
    if s.len() > 0 {
        let t = s.drop_last();
        lemma_collapse_shape(t);
        let p = collapse_newlines(t);
        let n = s.len() - 1;
        if third_newline_at(s, n) {
            assert(t.last() == s[n - 1]);
        } else {
            let q = p.push(s.last());
            assert forall|i: int| !#[trigger] third_newline_at(q, i) by {
                if third_newline_at(q, i) && i == q.len() - 1 {
                    assert(q[i - 1] == p.last());
                    assert(p.last() == s[n - 1]);
                    if n >= 2 {
                        assert(s[n - 2] != '\n');
                        assert(p[p.len() - 2] == s[n - 2]);
                    }
                } else if third_newline_at(q, i) {
                    assert(third_newline_at(p, i));
                }
            }
            if s.len() >= 2 {
                assert(t.last() == s[s.len() - 2]);
            }
        }
    }
}

/// The plaintext rendering has no run of three newlines, and neither starts nor ends
/// with whitespace.
pub proof fn lemma_markdown_text_shape(md: Seq<char>)
    ensures
        no_newline_triple(markdown_text(md)),
        markdown_text(md).len() > 0 ==> !unicode_white_space(markdown_text(md)[0])
            && !unicode_white_space(markdown_text(md).last()),
{
    let c = collapse_newlines(events_text(markdown_events(md, gfm_option_bits())));
    lemma_collapse_shape(events_text(markdown_events(md, gfm_option_bits())));
    lemma_trimmed_shape(c);
    let (a, b) = choose|a: int, b: int| 0 <= a <= b <= c.len() && trimmed(c) == c.subrange(a, b);
    let r = trimmed(c);
    assert forall|i: int| !#[trigger] third_newline_at(r, i) by {
        if third_newline_at(r, i) {
            assert(third_newline_at(c, i + a));
        }
    }
}

/// The plaintext of a stream is the plaintext of its parts, in order.
pub proof fn lemma_events_text_concat(a: Seq<MarkdownEventView>, b: Seq<MarkdownEventView>)
    ensures
        events_text(a + b) == events_text(a) + events_text(b),
    decreases b.len(),
{
    if b.len() == 0 {
        assert(a + b == a);
    } else {
        lemma_events_text_concat(a, b.drop_last());
        assert((a + b).drop_last() == a + b.drop_last());
    }
}

/// A hard line break ends the line: wherever it stands, it contributes exactly one line
/// end, so the text before and after it is never joined.
pub proof fn lemma_hard_break_ends_line(pre: Seq<MarkdownEventView>, post: Seq<MarkdownEventView>)
    ensures
        events_text(pre + seq![MarkdownEventView::HardBreak] + post) == events_text(pre) + seq![
            '\n',
        ] + events_text(post),
        events_text(pre + seq![MarkdownEventView::HardBreak] + post) == events_text(
            pre + seq![MarkdownEventView::SoftBreak] + post,
        ),
{
    let hard = seq![MarkdownEventView::HardBreak];
    let soft = seq![MarkdownEventView::SoftBreak];
    lemma_events_text_concat(pre + hard, post);
    lemma_events_text_concat(pre, hard);
    lemma_events_text_concat(pre + soft, post);
    lemma_events_text_concat(pre, soft);
    assert(hard.drop_last() == Seq::<MarkdownEventView>::empty());
    assert(soft.drop_last() == Seq::<MarkdownEventView>::empty());
    assert(hard.last() == MarkdownEventView::HardBreak);
    assert(soft.last() == MarkdownEventView::SoftBreak);
    assert(events_text(hard.drop_last()) == Seq::<char>::empty());
    assert(events_text(hard) == Seq::<char>::empty() + seq!['\n']);
    assert(events_text(hard) == seq!['\n']);
    assert(events_text(soft) == Seq::<char>::empty() + seq!['\n']);
    assert(events_text(soft) == seq!['\n']);
}

/// The names of the inline markup whose markers plaintext drops: emphasis, strong
/// emphasis, strikethrough and links (whose text stays and whose URL goes).
pub open spec fn inline_markup_name(base: Seq<char>) -> bool {
    ||| base == "Emphasis"@
    ||| base == "Strong"@
    ||| base == "Strikethrough"@
    ||| base == "Link"@
}

/// Opening or closing inline markup contributes no text.
proof fn lemma_inline_markup_silent(base: Seq<char>)
    requires
        inline_markup_name(base),
    ensures
        start_text(tag_named(base)) == Seq::<char>::empty(),
        end_text(tag_named(base)) == Seq::<char>::empty(),
{
    if base == "Emphasis"@ {
        reveal_strlit("Emphasis");
        reveal_strlit("Paragraph");
        reveal_strlit("Heading");
        reveal_strlit("BlockQuote");
        reveal_strlit("CodeBlock");
        reveal_strlit("HtmlBlock");
        reveal_strlit("List");
        reveal_strlit("Item");
        reveal_strlit("FootnoteDefinition");
        reveal_strlit("DefinitionList");
        reveal_strlit("DefinitionListTitle");
        reveal_strlit("DefinitionListDefinition");
        reveal_strlit("Table");
        reveal_strlit("TableHead");
        reveal_strlit("TableRow");
        reveal_strlit("TableCell");
        assert("Emphasis"@.len() != "Paragraph"@.len());
        assert("Emphasis"@.len() != "Heading"@.len());
        assert("Emphasis"@.len() != "BlockQuote"@.len());
        assert("Emphasis"@.len() != "CodeBlock"@.len());
        assert("Emphasis"@.len() != "HtmlBlock"@.len());
        assert("Emphasis"@.len() != "List"@.len());
        assert("Emphasis"@.len() != "Item"@.len());
        assert("Emphasis"@.len() != "FootnoteDefinition"@.len());
        assert("Emphasis"@.len() != "DefinitionList"@.len());
        assert("Emphasis"@.len() != "DefinitionListTitle"@.len());
        assert("Emphasis"@.len() != "DefinitionListDefinition"@.len());
        assert("Emphasis"@.len() != "Table"@.len());
        assert("Emphasis"@.len() != "TableHead"@.len());
        assert("Emphasis"@[0] != "TableRow"@[0]);
        assert("Emphasis"@.len() != "TableCell"@.len());
        assert(tag_named(base) == MdTag::Emphasis);
    }
    if base == "Strong"@ {
        reveal_strlit("Strong");
        reveal_strlit("Paragraph");
        reveal_strlit("Heading");
        reveal_strlit("BlockQuote");
        reveal_strlit("CodeBlock");
        reveal_strlit("HtmlBlock");
        reveal_strlit("List");
        reveal_strlit("Item");
        reveal_strlit("FootnoteDefinition");
        reveal_strlit("DefinitionList");
        reveal_strlit("DefinitionListTitle");
        reveal_strlit("DefinitionListDefinition");
        reveal_strlit("Table");
        reveal_strlit("TableHead");
        reveal_strlit("TableRow");
        reveal_strlit("TableCell");
        reveal_strlit("Emphasis");
        assert("Strong"@.len() != "Paragraph"@.len());
        assert("Strong"@.len() != "Heading"@.len());
        assert("Strong"@.len() != "BlockQuote"@.len());
        assert("Strong"@.len() != "CodeBlock"@.len());
        assert("Strong"@.len() != "HtmlBlock"@.len());
        assert("Strong"@.len() != "List"@.len());
        assert("Strong"@.len() != "Item"@.len());
        assert("Strong"@.len() != "FootnoteDefinition"@.len());
        assert("Strong"@.len() != "DefinitionList"@.len());
        assert("Strong"@.len() != "DefinitionListTitle"@.len());
        assert("Strong"@.len() != "DefinitionListDefinition"@.len());
        assert("Strong"@.len() != "Table"@.len());
        assert("Strong"@.len() != "TableHead"@.len());
        assert("Strong"@.len() != "TableRow"@.len());
        assert("Strong"@.len() != "TableCell"@.len());
        assert("Strong"@.len() != "Emphasis"@.len());
        assert(tag_named(base) == MdTag::Strong);
    }
    if base == "Strikethrough"@ {
        reveal_strlit("Strikethrough");
        reveal_strlit("Paragraph");
        reveal_strlit("Heading");
        reveal_strlit("BlockQuote");
        reveal_strlit("CodeBlock");
        reveal_strlit("HtmlBlock");
        reveal_strlit("List");
        reveal_strlit("Item");
        reveal_strlit("FootnoteDefinition");
        reveal_strlit("DefinitionList");
        reveal_strlit("DefinitionListTitle");
        reveal_strlit("DefinitionListDefinition");
        reveal_strlit("Table");
        reveal_strlit("TableHead");
        reveal_strlit("TableRow");
        reveal_strlit("TableCell");
        reveal_strlit("Emphasis");
        reveal_strlit("Strong");
        assert("Strikethrough"@.len() != "Paragraph"@.len());
        assert("Strikethrough"@.len() != "Heading"@.len());
        assert("Strikethrough"@.len() != "BlockQuote"@.len());
        assert("Strikethrough"@.len() != "CodeBlock"@.len());
        assert("Strikethrough"@.len() != "HtmlBlock"@.len());
        assert("Strikethrough"@.len() != "List"@.len());
        assert("Strikethrough"@.len() != "Item"@.len());
        assert("Strikethrough"@.len() != "FootnoteDefinition"@.len());
        assert("Strikethrough"@.len() != "DefinitionList"@.len());
        assert("Strikethrough"@.len() != "DefinitionListTitle"@.len());
        assert("Strikethrough"@.len() != "DefinitionListDefinition"@.len());
        assert("Strikethrough"@.len() != "Table"@.len());
        assert("Strikethrough"@.len() != "TableHead"@.len());
        assert("Strikethrough"@.len() != "TableRow"@.len());
        assert("Strikethrough"@.len() != "TableCell"@.len());
        assert("Strikethrough"@.len() != "Emphasis"@.len());
        assert("Strikethrough"@.len() != "Strong"@.len());
        assert(tag_named(base) == MdTag::Strikethrough);
    }
    if base == "Link"@ {
        reveal_strlit("Link");
        reveal_strlit("Paragraph");
        reveal_strlit("Heading");
        reveal_strlit("BlockQuote");
        reveal_strlit("CodeBlock");
        reveal_strlit("HtmlBlock");
        reveal_strlit("List");
        reveal_strlit("Item");
        reveal_strlit("FootnoteDefinition");
        reveal_strlit("DefinitionList");
        reveal_strlit("DefinitionListTitle");
        reveal_strlit("DefinitionListDefinition");
        reveal_strlit("Table");
        reveal_strlit("TableHead");
        reveal_strlit("TableRow");
        reveal_strlit("TableCell");
        reveal_strlit("Emphasis");
        reveal_strlit("Strong");
        reveal_strlit("Strikethrough");
        assert("Link"@.len() != "Paragraph"@.len());
        assert("Link"@.len() != "Heading"@.len());
        assert("Link"@.len() != "BlockQuote"@.len());
        assert("Link"@.len() != "CodeBlock"@.len());
        assert("Link"@.len() != "HtmlBlock"@.len());
        assert("Link"@[2] != "List"@[2]);
        assert("Link"@[0] != "Item"@[0]);
        assert("Link"@.len() != "FootnoteDefinition"@.len());
        assert("Link"@.len() != "DefinitionList"@.len());
        assert("Link"@.len() != "DefinitionListTitle"@.len());
        assert("Link"@.len() != "DefinitionListDefinition"@.len());
        assert("Link"@.len() != "Table"@.len());
        assert("Link"@.len() != "TableHead"@.len());
        assert("Link"@.len() != "TableRow"@.len());
        assert("Link"@.len() != "TableCell"@.len());
        assert("Link"@.len() != "Emphasis"@.len());
        assert("Link"@.len() != "Strong"@.len());
        assert("Link"@.len() != "Strikethrough"@.len());
        assert(tag_named(base) == MdTag::Link);
    }
}

/// Inline markup adds no text: the plaintext of a stream with an emphasis, strong,
/// strikethrough or link element around some events equals the plaintext of the same
/// stream without the element's start and end.
pub proof fn lemma_inline_markup_dropped(
    pre: Seq<MarkdownEventView>,
    open: Seq<char>,
    inner: Seq<MarkdownEventView>,
    close: Seq<char>,
    post: Seq<MarkdownEventView>,
)
    requires
        inline_markup_name(tag_base(open)),
        inline_markup_name(tag_base(close)),
    ensures
        events_text(pre + seq![MarkdownEventView::Start(open)] + inner + seq![
            MarkdownEventView::End(close),
        ] + post) == events_text(pre + inner + post),
{
    lemma_inline_markup_silent(tag_base(open));
    lemma_inline_markup_silent(tag_base(close));
    let st = seq![MarkdownEventView::Start(open)];
    let en = seq![MarkdownEventView::End(close)];
    assert(st.drop_last() == Seq::<MarkdownEventView>::empty());
    assert(en.drop_last() == Seq::<MarkdownEventView>::empty());
    assert(st.last() == MarkdownEventView::Start(open));
    assert(en.last() == MarkdownEventView::End(close));
    assert(events_text(st.drop_last()) == Seq::<char>::empty());
    assert(event_text(st.last()) == Seq::<char>::empty());
    assert(events_text(st) == Seq::<char>::empty() + Seq::<char>::empty());
    assert(events_text(st) == Seq::<char>::empty());
    assert(events_text(en.drop_last()) == Seq::<char>::empty());
    assert(event_text(en.last()) == Seq::<char>::empty());
    assert(events_text(en) == Seq::<char>::empty() + Seq::<char>::empty());
    assert(events_text(en) == Seq::<char>::empty());
    assert(pre + st + inner + en + post == pre + st + inner + en + post);
    lemma_events_text_concat(pre + st + inner + en, post);
    lemma_events_text_concat(pre + st + inner, en);
    lemma_events_text_concat(pre + st, inner);
    lemma_events_text_concat(pre, st);
    lemma_events_text_concat(pre + inner, post);
    lemma_events_text_concat(pre, inner);
}

/// A printed tag with no `(` or space is its own name.
pub proof fn lemma_plain_tag_base(name: Seq<char>)
    requires
        forall|i: int| 0 <= i < name.len() ==> name[i] != '(' && name[i] != ' ',
    ensures
        tag_base(name) == name,
{
    lemma_name_end_plain(name, 0);
    assert(name.subrange(0, name.len() as int) == name);
}

proof fn lemma_name_end_plain(name: Seq<char>, from: int)
    requires
        0 <= from <= name.len(),
        forall|i: int| 0 <= i < name.len() ==> name[i] != '(' && name[i] != ' ',
    ensures
        name_end(name, from) == name.len(),
    decreases name.len() - from,
{
    if from < name.len() {
        lemma_name_end_plain(name, from + 1);
    }
}

/// The names of the blocks that end with a blank line: paragraphs, headings and code
/// blocks.
pub open spec fn blank_line_block_name(base: Seq<char>) -> bool {
    ||| base == "Paragraph"@
    ||| base == "Heading"@
    ||| base == "CodeBlock"@
}

proof fn lemma_block_texts(base: Seq<char>)
    ensures
        blank_line_block_name(base) ==> end_text(tag_named(base)) == seq!['\n', '\n']
            && start_text(tag_named(base)) == Seq::<char>::empty(),
        base == "Item"@ ==> start_text(tag_named(base)) == seq!['-', ' '] && end_text(
            tag_named(base),
        ) == seq!['\n'],
{
    if base == "Paragraph"@ {
        reveal_strlit("Paragraph");
        assert(tag_named(base) == MdTag::Paragraph);
    }
    if base == "Heading"@ {
        reveal_strlit("Heading");
        reveal_strlit("Paragraph");
        assert("Heading"@.len() != "Paragraph"@.len());
        assert(tag_named(base) == MdTag::Heading);
    }
    if base == "CodeBlock"@ {
        reveal_strlit("CodeBlock");
        reveal_strlit("Paragraph");
        reveal_strlit("Heading");
        reveal_strlit("BlockQuote");
        assert("CodeBlock"@[0] != "Paragraph"@[0]);
        assert("CodeBlock"@.len() != "Heading"@.len());
        assert("CodeBlock"@.len() != "BlockQuote"@.len());
        assert(tag_named(base) == MdTag::CodeBlock);
    }
    if base == "Item"@ {
        reveal_strlit("Item");
        reveal_strlit("Paragraph");
        reveal_strlit("Heading");
        reveal_strlit("BlockQuote");
        reveal_strlit("CodeBlock");
        reveal_strlit("HtmlBlock");
        reveal_strlit("List");
        assert("Item"@.len() != "Paragraph"@.len());
        assert("Item"@.len() != "Heading"@.len());
        assert("Item"@.len() != "BlockQuote"@.len());
        assert("Item"@.len() != "CodeBlock"@.len());
        assert("Item"@.len() != "HtmlBlock"@.len());
        assert("Item"@[0] != "List"@[0]);
        assert(tag_named(base) == MdTag::Item);
    }
}

proof fn lemma_one_event_text(e: MarkdownEventView)
    ensures
        events_text(seq![e]) == event_text(e),
{
    let one = seq![e];
    assert(one.len() == 1);
    assert(one.drop_last() == Seq::<MarkdownEventView>::empty());
    assert(one.last() == e);
    assert(events_text(one.drop_last()) == Seq::<char>::empty());
    assert(events_text(one) == events_text(one.drop_last()) + event_text(one.last()));
    assert(Seq::<char>::empty() + event_text(e) == event_text(e));
}

/// What one event adds in the middle of a stream: the stream's text is the text before
/// it, the event's own contribution, and the text after it.
proof fn lemma_event_in_stream(
    pre: Seq<MarkdownEventView>,
    e: MarkdownEventView,
    post: Seq<MarkdownEventView>,
)
    ensures
        events_text(pre + seq![e] + post) == events_text(pre) + event_text(e) + events_text(post),
{
    lemma_events_text_concat(pre + seq![e], post);
    lemma_events_text_concat(pre, seq![e]);
    lemma_one_event_text(e);
}

/// Text and inline code are kept as they are; math, raw HTML, footnote references,
/// rules and task markers add nothing.
pub proof fn lemma_leaf_events_text(
    pre: Seq<MarkdownEventView>,
    t: Seq<char>,
    post: Seq<MarkdownEventView>,
)
    ensures
        events_text(pre + seq![MarkdownEventView::Text(t)] + post) == events_text(pre) + t
            + events_text(post),
        events_text(pre + seq![MarkdownEventView::Code(t)] + post) == events_text(pre) + t
            + events_text(post),
        events_text(pre + seq![MarkdownEventView::InlineHtml(t)] + post) == events_text(pre)
            + events_text(post),
        events_text(pre + seq![MarkdownEventView::Html(t)] + post) == events_text(pre)
            + events_text(post),
        events_text(pre + seq![MarkdownEventView::InlineMath(t)] + post) == events_text(pre)
            + events_text(post),
        events_text(pre + seq![MarkdownEventView::DisplayMath(t)] + post) == events_text(pre)
            + events_text(post),
        events_text(pre + seq![MarkdownEventView::FootnoteReference(t)] + post) == events_text(
            pre,
        ) + events_text(post),
        events_text(pre + seq![MarkdownEventView::Rule] + post) == events_text(pre) + events_text(
            post,
        ),
{
    lemma_event_in_stream(pre, MarkdownEventView::Text(t), post);
    lemma_event_in_stream(pre, MarkdownEventView::Code(t), post);
    lemma_event_in_stream(pre, MarkdownEventView::InlineHtml(t), post);
    lemma_event_in_stream(pre, MarkdownEventView::Html(t), post);
    lemma_event_in_stream(pre, MarkdownEventView::InlineMath(t), post);
    lemma_event_in_stream(pre, MarkdownEventView::DisplayMath(t), post);
    lemma_event_in_stream(pre, MarkdownEventView::FootnoteReference(t), post);
    lemma_event_in_stream(pre, MarkdownEventView::Rule, post);
    let e = Seq::<char>::empty();
    assert(events_text(pre) + e + events_text(post) == events_text(pre) + events_text(post));
}

/// Paragraphs, headings and code blocks end with a blank line; a list item starts with
/// `- ` and ends with a line end.
pub proof fn lemma_block_separators(
    pre: Seq<MarkdownEventView>,
    name: Seq<char>,
    post: Seq<MarkdownEventView>,
)
    ensures
        blank_line_block_name(tag_base(name)) ==> events_text(
            pre + seq![MarkdownEventView::End(name)] + post,
        ) == events_text(pre) + seq!['\n', '\n'] + events_text(post),
        blank_line_block_name(tag_base(name)) ==> events_text(
            pre + seq![MarkdownEventView::Start(name)] + post,
        ) == events_text(pre) + events_text(post),
        tag_base(name) == "Item"@ ==> events_text(pre + seq![MarkdownEventView::Start(name)] + post)
            == events_text(pre) + seq!['-', ' '] + events_text(post),
        tag_base(name) == "Item"@ ==> events_text(pre + seq![MarkdownEventView::End(name)] + post)
            == events_text(pre) + seq!['\n'] + events_text(post),
{
    lemma_block_texts(tag_base(name));
    lemma_event_in_stream(pre, MarkdownEventView::End(name), post);
    lemma_event_in_stream(pre, MarkdownEventView::Start(name), post);
    let e = Seq::<char>::empty();
    assert(events_text(pre) + e + events_text(post) == events_text(pre) + events_text(post));
}

} // verus!
